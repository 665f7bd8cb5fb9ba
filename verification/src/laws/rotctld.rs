//! Laws of the rotctld server: faults, command names, line collection and
//! the values that commands carry.

use vstd::prelude::*;
use vstd::utf8::valid_utf8;

use crate::laws::wire::{
    lemma_all_ascii_concat, lemma_ascii_line, lemma_ascii_lit, lemma_differs_at,
    lemma_four_fields, lemma_number_text, lemma_split_field,
};
use crate::tasks::rotctld::{
    args_after, blank_line, command_request, strip_cr, held_after_all, is_space_byte, request_outcome, rotctld_outcome, rotctld_request,
    Outcome, Reply, Request, LINE_CAPACITY,
};
use crate::text::{all_ascii, has_prefix, lemma_ascii_prefix_utf8, lit, split_parts};
use crate::types::{FaultKind, Goal, LimitsUpdate, Phase, RotatorCmd};
use crate::util::{
    decimal_text, is_canonical, lemma_decimal_text_reads_back, number_field, Decimal,
};

verus! {

/// While a fault is present, no request moves the rotator.
pub proof fn fault_blocks_motion(req: Request, k: FaultKind)
    ensures
        request_outcome(req, Phase::Fault(k)).command is None,
{
}

/// While a fault is present, every line that is not blank is answered
/// with the fault report, and changes nothing.
pub proof fn fault_answers_every_request(req: Request, k: FaultKind)
    requires
        req != Request::Blank,
    ensures
        request_outcome(req, Phase::Fault(k)) == (Outcome {
            reply: Reply::Fault(k),
            command: None,
            limits: None,
        }),
{
}

/// An empty line, or one of white space only, is answered `RPRT -8` and
/// changes nothing, whatever the phase.
pub proof fn blank_lines_are_not_commands(line: Seq<u8>, phase: Phase)
    requires
        blank_line(line),
    ensures
        rotctld_outcome(line, phase) == (Outcome {
            reply: Reply::NotImplemented,
            command: None,
            limits: None,
        }),
{
    assert forall|i: int| 0 <= i < line.len() implies #[trigger] line[i] <= 0x7f by {
        assert(is_space_byte(line[i]));
    }
    lemma_ascii_line(line);
}

/// A line that is not UTF-8 is no command the server knows: it is answered
/// `RPRT -1` and changes nothing, unless a fault is present.
pub proof fn non_utf8_lines_are_rejected(line: Seq<u8>, phase: Phase)
    requires
        !valid_utf8(line),
    ensures
        rotctld_request(line) == Request::Unknown,
        !(phase is Fault) ==> rotctld_outcome(line, phase) == (Outcome {
            reply: Reply::Reject,
            command: None,
            limits: None,
        }),
{
}

/// A request changes something (sends a command or new limits) only when
/// it is answered `RPRT 0`, and never does both.
pub proof fn changes_are_acknowledged(req: Request, phase: Phase)
    ensures
        ({
            let o = request_outcome(req, phase);
            &&& o.command is Some ==> o.reply == Reply::Ack && o.limits is None
            &&& o.limits is Some ==> o.reply == Reply::Ack && o.command is None
        }),
{
}

/// The same arguments after a short and a long command name.
proof fn lemma_same_args(short: Seq<u8>, long: Seq<u8>, args: Seq<u8>)
    requires
        all_ascii(short),
        all_ascii(long),
        !has_prefix(long + args, short),
    ensures
        valid_utf8(short + args) == valid_utf8(long + args),
        has_prefix(short + args, short),
        has_prefix(long + args, long),
        args_after(short + args, short, long) == args,
        args_after(long + args, short, long) == args,
{
    lemma_ascii_prefix_utf8(short, args);
    lemma_ascii_prefix_utf8(long, args);
    assert((short + args).subrange(0, short.len() as int) =~= short);
    assert((long + args).subrange(0, long.len() as int) =~= long);
    assert((short + args).subrange(short.len() as int, (short + args).len() as int) =~= args);
    assert((long + args).subrange(long.len() as int, (long + args).len() as int) =~= args);
}

/// A line whose first byte is no white space is not blank.
proof fn lemma_not_blank(t: Seq<u8>)
    requires
        t.len() > 0,
        !is_space_byte(t[0]),
    ensures
        !blank_line(t),
{
}

proof fn lemma_set_pos_names(args: Seq<u8>)
    ensures
        command_request(lit("P ") + args) == command_request(lit("\\set_pos ") + args),
        valid_utf8(lit("P ") + args) == valid_utf8(lit("\\set_pos ") + args),
{
    reveal_strlit("p");
    reveal_strlit("\\get_pos");
    reveal_strlit("P ");
    reveal_strlit("\\set_pos ");
    lemma_ascii_lit("p");
    lemma_ascii_lit("\\get_pos");
    lemma_ascii_lit("P ");
    lemma_ascii_lit("\\set_pos ");
    let (short, long) = (lit("P "), lit("\\set_pos "));
    let (t1, t2) = (short + args, long + args);
    lemma_differs_at(t2, short, 0);
    lemma_same_args(short, long, args);
    lemma_not_blank(t1);
    lemma_not_blank(t2);
    lemma_differs_at(t1, lit("p"), 0);
    lemma_differs_at(t1, lit("\\get_pos"), 0);
    lemma_differs_at(t2, lit("p"), 0);
    lemma_differs_at(t2, lit("\\get_pos"), 1);
}

proof fn lemma_set_limits_names(args: Seq<u8>)
    ensures
        command_request(lit("L ") + args) == command_request(lit("\\set_limits ") + args),
        valid_utf8(lit("L ") + args) == valid_utf8(lit("\\set_limits ") + args),
{
    reveal_strlit("p");
    reveal_strlit("\\get_pos");
    reveal_strlit("P ");
    reveal_strlit("\\set_pos ");
    reveal_strlit("S");
    reveal_strlit("\\stop");
    reveal_strlit("l");
    reveal_strlit("\\get_limits");
    reveal_strlit("L ");
    reveal_strlit("\\set_limits ");
    lemma_ascii_lit("p");
    lemma_ascii_lit("\\get_pos");
    lemma_ascii_lit("P ");
    lemma_ascii_lit("\\set_pos ");
    lemma_ascii_lit("S");
    lemma_ascii_lit("\\stop");
    lemma_ascii_lit("l");
    lemma_ascii_lit("\\get_limits");
    lemma_ascii_lit("L ");
    lemma_ascii_lit("\\set_limits ");
    let (short, long) = (lit("L "), lit("\\set_limits "));
    let (t1, t2) = (short + args, long + args);
    lemma_differs_at(t2, short, 0);
    lemma_same_args(short, long, args);
    lemma_not_blank(t1);
    lemma_not_blank(t2);
    lemma_differs_at(t1, lit("p"), 0);
    lemma_differs_at(t1, lit("\\get_pos"), 0);
    lemma_differs_at(t1, lit("P "), 0);
    lemma_differs_at(t1, lit("\\set_pos "), 0);
    lemma_differs_at(t1, lit("S"), 0);
    lemma_differs_at(t1, lit("\\stop"), 0);
    lemma_differs_at(t1, lit("l"), 0);
    lemma_differs_at(t1, lit("\\get_limits"), 0);
    lemma_differs_at(t2, lit("p"), 0);
    lemma_differs_at(t2, lit("\\get_pos"), 1);
    lemma_differs_at(t2, lit("P "), 0);
    lemma_differs_at(t2, lit("\\set_pos "), 5);
    lemma_differs_at(t2, lit("S"), 0);
    lemma_differs_at(t2, lit("\\stop"), 2);
    lemma_differs_at(t2, lit("l"), 0);
    lemma_differs_at(t2, lit("\\get_limits"), 1);
}

proof fn lemma_move_names(args: Seq<u8>)
    ensures
        command_request(lit("M ") + args) == command_request(lit("\\move ") + args),
        valid_utf8(lit("M ") + args) == valid_utf8(lit("\\move ") + args),
{
    reveal_strlit("p");
    reveal_strlit("\\get_pos");
    reveal_strlit("P ");
    reveal_strlit("\\set_pos ");
    reveal_strlit("S");
    reveal_strlit("\\stop");
    reveal_strlit("l");
    reveal_strlit("\\get_limits");
    reveal_strlit("L ");
    reveal_strlit("\\set_limits ");
    reveal_strlit("M ");
    reveal_strlit("\\move ");
    lemma_ascii_lit("p");
    lemma_ascii_lit("\\get_pos");
    lemma_ascii_lit("P ");
    lemma_ascii_lit("\\set_pos ");
    lemma_ascii_lit("S");
    lemma_ascii_lit("\\stop");
    lemma_ascii_lit("l");
    lemma_ascii_lit("\\get_limits");
    lemma_ascii_lit("L ");
    lemma_ascii_lit("\\set_limits ");
    lemma_ascii_lit("M ");
    lemma_ascii_lit("\\move ");
    let (short, long) = (lit("M "), lit("\\move "));
    let (t1, t2) = (short + args, long + args);
    lemma_differs_at(t2, short, 0);
    lemma_same_args(short, long, args);
    lemma_not_blank(t1);
    lemma_not_blank(t2);
    lemma_differs_at(t1, lit("p"), 0);
    lemma_differs_at(t1, lit("\\get_pos"), 0);
    lemma_differs_at(t1, lit("P "), 0);
    lemma_differs_at(t1, lit("\\set_pos "), 0);
    lemma_differs_at(t1, lit("S"), 0);
    lemma_differs_at(t1, lit("\\stop"), 0);
    lemma_differs_at(t1, lit("l"), 0);
    lemma_differs_at(t1, lit("\\get_limits"), 0);
    lemma_differs_at(t1, lit("L "), 0);
    lemma_differs_at(t1, lit("\\set_limits "), 0);
    lemma_differs_at(t2, lit("p"), 0);
    lemma_differs_at(t2, lit("\\get_pos"), 1);
    lemma_differs_at(t2, lit("P "), 0);
    lemma_differs_at(t2, lit("\\set_pos "), 1);
    lemma_differs_at(t2, lit("S"), 0);
    lemma_differs_at(t2, lit("\\stop"), 1);
    lemma_differs_at(t2, lit("l"), 0);
    lemma_differs_at(t2, lit("\\get_limits"), 1);
    lemma_differs_at(t2, lit("L "), 0);
    lemma_differs_at(t2, lit("\\set_limits "), 1);
}

proof fn lemma_reset_names(args: Seq<u8>)
    ensures
        command_request(lit("R ") + args) == command_request(lit("\\reset ") + args),
        valid_utf8(lit("R ") + args) == valid_utf8(lit("\\reset ") + args),
{
    reveal_strlit("p");
    reveal_strlit("\\get_pos");
    reveal_strlit("P ");
    reveal_strlit("\\set_pos ");
    reveal_strlit("S");
    reveal_strlit("\\stop");
    reveal_strlit("l");
    reveal_strlit("\\get_limits");
    reveal_strlit("L ");
    reveal_strlit("\\set_limits ");
    reveal_strlit("M ");
    reveal_strlit("\\move ");
    reveal_strlit("1");
    reveal_strlit("\\dump_caps");
    reveal_strlit("R ");
    reveal_strlit("\\reset ");
    lemma_ascii_lit("p");
    lemma_ascii_lit("\\get_pos");
    lemma_ascii_lit("P ");
    lemma_ascii_lit("\\set_pos ");
    lemma_ascii_lit("S");
    lemma_ascii_lit("\\stop");
    lemma_ascii_lit("l");
    lemma_ascii_lit("\\get_limits");
    lemma_ascii_lit("L ");
    lemma_ascii_lit("\\set_limits ");
    lemma_ascii_lit("M ");
    lemma_ascii_lit("\\move ");
    lemma_ascii_lit("1");
    lemma_ascii_lit("\\dump_caps");
    lemma_ascii_lit("R ");
    lemma_ascii_lit("\\reset ");
    let (short, long) = (lit("R "), lit("\\reset "));
    let (t1, t2) = (short + args, long + args);
    lemma_differs_at(t2, short, 0);
    lemma_same_args(short, long, args);
    lemma_not_blank(t1);
    lemma_not_blank(t2);
    lemma_differs_at(t1, lit("p"), 0);
    lemma_differs_at(t1, lit("\\get_pos"), 0);
    lemma_differs_at(t1, lit("P "), 0);
    lemma_differs_at(t1, lit("\\set_pos "), 0);
    lemma_differs_at(t1, lit("S"), 0);
    lemma_differs_at(t1, lit("\\stop"), 0);
    lemma_differs_at(t1, lit("l"), 0);
    lemma_differs_at(t1, lit("\\get_limits"), 0);
    lemma_differs_at(t1, lit("L "), 0);
    lemma_differs_at(t1, lit("\\set_limits "), 0);
    lemma_differs_at(t1, lit("M "), 0);
    lemma_differs_at(t1, lit("\\move "), 0);
    lemma_differs_at(t1, lit("1"), 0);
    lemma_differs_at(t1, lit("\\dump_caps"), 0);
    lemma_differs_at(t2, lit("p"), 0);
    lemma_differs_at(t2, lit("\\get_pos"), 1);
    lemma_differs_at(t2, lit("P "), 0);
    lemma_differs_at(t2, lit("\\set_pos "), 1);
    lemma_differs_at(t2, lit("S"), 0);
    lemma_differs_at(t2, lit("\\stop"), 1);
    lemma_differs_at(t2, lit("l"), 0);
    lemma_differs_at(t2, lit("\\get_limits"), 1);
    lemma_differs_at(t2, lit("L "), 0);
    lemma_differs_at(t2, lit("\\set_limits "), 1);
    lemma_differs_at(t2, lit("M "), 0);
    lemma_differs_at(t2, lit("\\move "), 1);
    lemma_differs_at(t2, lit("1"), 0);
    lemma_differs_at(t2, lit("\\dump_caps"), 1);
}

/// A command that takes arguments reads the same under its long name as
/// under its short one: `P` and `\set_pos`, `L` and `\set_limits`, `M`
/// and `\move`, `R` and `\reset`.
pub proof fn long_names_match_short_names(args: Seq<u8>)
    ensures
        rotctld_request(lit("P ") + args) == rotctld_request(lit("\\set_pos ") + args),
        rotctld_request(lit("L ") + args) == rotctld_request(lit("\\set_limits ") + args),
        rotctld_request(lit("M ") + args) == rotctld_request(lit("\\move ") + args),
        rotctld_request(lit("R ") + args) == rotctld_request(lit("\\reset ") + args),
{
    lemma_set_pos_names(args);
    lemma_set_limits_names(args);
    lemma_move_names(args);
    lemma_reset_names(args);
}

/// Bytes of a command line are held in order, up to the buffer's capacity:
/// fed one by one to an empty buffer, bytes that hold no newline leave it
/// holding the first [`LINE_CAPACITY`] of them (all of them when they fit).
pub proof fn command_line_is_kept(bytes: Seq<u8>)
    requires
        forall|i: int| 0 <= i < bytes.len() ==> #[trigger] bytes[i] != 10,
    ensures
        held_after_all(Seq::<u8>::empty(), bytes) == bytes.take(
            if bytes.len() < LINE_CAPACITY {
                bytes.len() as int
            } else {
                LINE_CAPACITY as int
            },
        ),
    decreases bytes.len(),
{
    if bytes.len() == 0 {
        assert(bytes.take(0) =~= Seq::<u8>::empty());
    } else {
        let d = bytes.drop_last();
        assert forall|i: int| 0 <= i < d.len() implies #[trigger] d[i] != 10 by {
            assert(d[i] == bytes[i]);
        }
        command_line_is_kept(d);
        assert(bytes.last() != 10);
        if d.len() < LINE_CAPACITY {
            assert(d.take(d.len() as int).push(bytes.last()) =~= bytes.take(bytes.len() as int));
        } else {
            assert(d.take(LINE_CAPACITY as int) =~= bytes.take(LINE_CAPACITY as int));
        }
    }
}

/// `P ` followed by UTF-8 arguments is a position request with the numbers
/// of its first two space-separated fields.
proof fn lemma_set_pos_request(args: Seq<u8>)
    requires
        valid_utf8(args),
    ensures
        rotctld_request(lit("P ") + args) == (Request::SetPosition {
            az: number_field(args, 2, 0),
            el: number_field(args, 2, 1),
        }),
{
    reveal_strlit("p");
    reveal_strlit("\\get_pos");
    reveal_strlit("P ");
    lemma_ascii_lit("p");
    lemma_ascii_lit("\\get_pos");
    lemma_ascii_lit("P ");
    let line = lit("P ") + args;
    lemma_ascii_prefix_utf8(lit("P "), args);
    lemma_not_blank(line);
    lemma_differs_at(line, lit("p"), 0);
    lemma_differs_at(line, lit("\\get_pos"), 0);
    assert(line.subrange(0, 2) =~= lit("P "));
    assert(line.subrange(2, line.len() as int) =~= args);
}

/// `P <az> <el>`, with the angles written out as decimal text, asks for
/// exactly those angles.
pub proof fn set_position_carries_the_angles(az: Decimal, el: Decimal)
    requires
        is_canonical(az),
        is_canonical(el),
    ensures
        rotctld_request(lit("P ") + decimal_text(az) + lit(" ") + decimal_text(el))
            == (Request::SetPosition { az: Some(az), el: Some(el) }),
        rotctld_outcome(lit("P ") + decimal_text(az) + lit(" ") + decimal_text(el), Phase::Running)
            == (Outcome {
            reply: Reply::Ack,
            command: Some(RotatorCmd::GoTo { az: Goal::To(az), el: Goal::To(el) }),
            limits: None,
        }),
{
    reveal_strlit(" ");
    lemma_ascii_lit(" ");
    let ta = decimal_text(az);
    let te = decimal_text(el);
    lemma_number_text(az);
    lemma_number_text(el);
    let sp = lit(" ");
    assert(sp =~= seq![32u8]);
    let args = ta + sp + te;
    assert(lit("P ") + ta + sp + te =~= lit("P ") + args);
    lemma_all_ascii_concat(ta, sp);
    lemma_all_ascii_concat(ta + sp, te);
    lemma_ascii_line(args);
    lemma_set_pos_request(args);
    lemma_split_field(ta, te, 1);
    assert(seq![ta] + seq![te] =~= seq![ta, te]);
    lemma_decimal_text_reads_back(az);
    lemma_decimal_text_reads_back(el);
}

/// `L ` followed by UTF-8 arguments is a limits request with the numbers
/// of its first four space-separated fields.
proof fn lemma_set_limits_request(args: Seq<u8>)
    requires
        valid_utf8(args),
    ensures
        rotctld_request(lit("L ") + args) == (Request::SetLimits {
            az_min: number_field(args, 4, 0),
            az_max: number_field(args, 4, 1),
            el_min: number_field(args, 4, 2),
            el_max: number_field(args, 4, 3),
        }),
{
    reveal_strlit("p");
    reveal_strlit("\\get_pos");
    reveal_strlit("P ");
    reveal_strlit("\\set_pos ");
    reveal_strlit("S");
    reveal_strlit("\\stop");
    reveal_strlit("l");
    reveal_strlit("\\get_limits");
    reveal_strlit("L ");
    lemma_ascii_lit("p");
    lemma_ascii_lit("\\get_pos");
    lemma_ascii_lit("P ");
    lemma_ascii_lit("\\set_pos ");
    lemma_ascii_lit("S");
    lemma_ascii_lit("\\stop");
    lemma_ascii_lit("l");
    lemma_ascii_lit("\\get_limits");
    lemma_ascii_lit("L ");
    let line = lit("L ") + args;
    lemma_ascii_prefix_utf8(lit("L "), args);
    lemma_not_blank(line);
    lemma_differs_at(line, lit("p"), 0);
    lemma_differs_at(line, lit("\\get_pos"), 0);
    lemma_differs_at(line, lit("P "), 0);
    lemma_differs_at(line, lit("\\set_pos "), 0);
    lemma_differs_at(line, lit("S"), 0);
    lemma_differs_at(line, lit("\\stop"), 0);
    lemma_differs_at(line, lit("l"), 0);
    lemma_differs_at(line, lit("\\get_limits"), 0);
    assert(line.subrange(0, 2) =~= lit("L "));
    assert(line.subrange(2, line.len() as int) =~= args);
}

/// `L <az_min> <az_max> <el_min> <el_max>`, with the limits written out as
/// decimal text, sets exactly those limits and is acknowledged while no
/// fault is present.
pub proof fn set_limits_carries_the_limits(
    a: Decimal,
    b: Decimal,
    c: Decimal,
    d: Decimal,
    phase: Phase,
)
    requires
        !(phase is Fault),
        is_canonical(a),
        is_canonical(b),
        is_canonical(c),
        is_canonical(d),
    ensures
        rotctld_outcome(
            lit("L ") + decimal_text(a) + lit(" ") + decimal_text(b) + lit(" ") + decimal_text(c)
                + lit(" ") + decimal_text(d),
            phase,
        ) == (Outcome {
            reply: Reply::Ack,
            command: None,
            limits: Some(LimitsUpdate { az_min: a, az_max: b, el_min: c, el_max: d }),
        }),
{
    reveal_strlit(" ");
    lemma_ascii_lit(" ");
    let sp = lit(" ");
    assert(sp =~= seq![32u8]);
    let (ta, tb, tc, td) = (decimal_text(a), decimal_text(b), decimal_text(c), decimal_text(d));
    lemma_four_fields(a, b, c, d);
    let args = ta + sp + tb + sp + tc + sp + td;
    assert(lit("L ") + ta + sp + tb + sp + tc + sp + td =~= lit("L ") + args);
    lemma_ascii_line(args);
    lemma_set_limits_request(args);
    let parts = split_parts(args, 32, 4);
    assert(parts[0] == ta && parts[1] == tb && parts[2] == tc && parts[3] == td);
    lemma_decimal_text_reads_back(a);
    lemma_decimal_text_reads_back(b);
    lemma_decimal_text_reads_back(c);
    lemma_decimal_text_reads_back(d);
}

/// A line ended by CR LF reads like the same line ended by LF alone: the
/// carriage return before the newline is dropped, and a line that does not
/// end in one is kept whole.
pub proof fn cr_before_newline_is_dropped(s: Seq<u8>)
    ensures
        strip_cr(s.push(13)) == s,
        s.len() == 0 || s.last() != 13 ==> strip_cr(s) == s,
        rotctld_request(strip_cr(s.push(13))) == rotctld_request(s),
{
    assert(s.push(13).drop_last() =~= s);
}

} // verus!
