//! Laws of the EasyComm II serial front end.

use vstd::prelude::*;
use crate::laws::wire::{lemma_ascii_lit, lemma_differs_at, lemma_four_fields, lemma_number_text};
use crate::tasks::easycom::{
    easycom_action, limits_action, position_action, serial_held_after_all, serial_outcome, Action, SerialReply,
    LINE_CAPACITY,
};
use crate::text::{has_prefix, lit, split_parts};
use crate::types::{FaultKind, Goal, LimitsUpdate, Phase, RotatorCmd};
use crate::util::{
    decimal_text, first_occurrence_from, is_canonical, is_number_byte,
    lemma_decimal_text_reads_back, lemma_first_occurrence_from, number_field, number_run_end,
    occurs_at, value_after, Decimal,
};

verus! {

/// Bytes of a serial line are held in order; a byte that finds the buffer
/// full is dropped with everything held, and collection starts over.  So
/// bytes without a line break leave the receiver holding those after the
/// last whole block of `LINE_CAPACITY + 1` bytes.
pub proof fn serial_overflow_starts_over(bytes: Seq<u8>)
    requires
        forall|i: int| 0 <= i < bytes.len() ==> #[trigger] bytes[i] != 10 && bytes[i] != 13,
    ensures
        serial_held_after_all(Seq::<u8>::empty(), bytes) == bytes.skip(
            bytes.len() as int - (bytes.len() as int) % (LINE_CAPACITY as int + 1),
        ),
    decreases bytes.len(),
{
    let c: int = LINE_CAPACITY as int + 1;
    let n = bytes.len() as int;
    if n == 0 {
        vstd::arithmetic::div_mod::lemma_small_mod(0, c as nat);
        assert(bytes.skip(0) =~= Seq::<u8>::empty());
    } else {
        let d = bytes.drop_last();
        assert forall|i: int| 0 <= i < d.len() implies #[trigger] d[i] != 10 && d[i] != 13 by {
            assert(d[i] == bytes[i]);
        }
        serial_overflow_starts_over(d);
        let m = n - 1;
        let r = m % c;
        vstd::arithmetic::div_mod::lemma_fundamental_div_mod(m, c);
        vstd::arithmetic::div_mod::lemma_mod_bound(m, c);
        let q = m / c;
        assert(q * c == c * q) by (nonlinear_arith);
        assert(n == q * c + r + 1);
        assert(bytes.last() != 10 && bytes.last() != 13);
        if r + 1 < c {
            vstd::arithmetic::div_mod::lemma_fundamental_div_mod_converse(n, c, q, r + 1);
            assert(n % c == r + 1);
            assert(d.skip(m - r).len() == r);
            assert(d.skip(m - r).push(bytes.last()) =~= bytes.skip(n - n % c));
        } else {
            assert((q + 1) * c == q * c + c) by (nonlinear_arith);
            vstd::arithmetic::div_mod::lemma_fundamental_div_mod_converse(n, c, q + 1, 0);
            assert(n % c == 0);
            assert(d.len() - r == m - r);
            assert(bytes.skip(n) =~= Seq::<u8>::empty());
        }
    }
}

/// The run of digits and points starting at `start` is `len` bytes long.
proof fn lemma_run_end(line: Seq<u8>, start: int, len: int)
    requires
        0 <= start,
        0 <= len,
        start + len <= line.len(),
        forall|k: int| start <= k < start + len ==> is_number_byte(#[trigger] line[k]),
        start + len == line.len() || !is_number_byte(line[start + len]),
    ensures
        number_run_end(line, start) == start + len,
    decreases len,
{
    if len > 0 {
        lemma_run_end(line, start + 1, len - 1);
    }
}

/// The first occurrence at or after `i` is at `j` when there is one at `j`
/// and none between.
proof fn lemma_first_occurrence_at(h: Seq<u8>, n: Seq<u8>, i: int, j: int)
    requires
        0 <= i <= j,
        occurs_at(h, n, j),
        forall|m: int| i <= m < j ==> !occurs_at(h, n, m),
    ensures
        first_occurrence_from(h, n, i) == Some(j),
    decreases j - i,
{
    if i < j {
        assert(!occurs_at(h, n, i));
        lemma_first_occurrence_at(h, n, i + 1, j);
    }
}

/// `AZ<az> EL<el>`, with non-negative angles written out as decimal text,
/// commands exactly those angles.
#[verifier::rlimit(30)]
pub proof fn easycom_position_carries_the_angles(az: Decimal, el: Decimal)
    requires
        is_canonical(az),
        is_canonical(el),
        !az.negative,
        !el.negative,
    ensures
        easycom_action(lit("AZ") + decimal_text(az) + lit(" EL") + decimal_text(el))
            == Action::Command(RotatorCmd::GoTo { az: Goal::To(az), el: Goal::To(el) }),
{
    reveal_strlit("VE");
    reveal_strlit("SA");
    reveal_strlit("SE");
    reveal_strlit("SA SE");
    reveal_strlit("LM");
    reveal_strlit("LM ");
    reveal_strlit("?");
    reveal_strlit("C");
    reveal_strlit("W ");
    reveal_strlit("AZ");
    reveal_strlit(" EL");
    reveal_strlit("EL");
    lemma_ascii_lit("VE");
    lemma_ascii_lit("SA");
    lemma_ascii_lit("SE");
    lemma_ascii_lit("SA SE");
    lemma_ascii_lit("LM");
    lemma_ascii_lit("LM ");
    lemma_ascii_lit("?");
    lemma_ascii_lit("C");
    lemma_ascii_lit("W ");
    lemma_ascii_lit("AZ");
    lemma_ascii_lit(" EL");
    lemma_ascii_lit("EL");
    let ta = decimal_text(az);
    let te = decimal_text(el);
    lemma_number_text(az);
    lemma_number_text(el);
    let line = lit("AZ") + ta + lit(" EL") + te;
    let l = ta.len() as int;
    assert(line.len() == 5 + l + te.len());
    assert forall|k: int| 2 <= k < 2 + l implies #[trigger] line[k] == ta[k - 2] by {}
    assert forall|k: int| 5 + l <= k < line.len() implies #[trigger] line[k] == te[k - 5 - l] by {}
    assert(line[0] == 65 && line[1] == 90);
    assert(line[2 + l] == 32 && line[3 + l] == 69 && line[4 + l] == 76);
    lemma_differs_at(line, lit("VE"), 0);
    lemma_differs_at(line, lit("SA"), 0);
    lemma_differs_at(line, lit("SE"), 0);
    lemma_differs_at(line, lit("SA SE"), 0);
    lemma_differs_at(line, lit("LM"), 0);
    lemma_differs_at(line, lit("LM "), 0);
    lemma_differs_at(line, lit("?"), 0);
    lemma_differs_at(line, lit("C"), 0);
    lemma_differs_at(line, lit("W "), 0);
    // the azimuth
    assert(line.subrange(0, 2) =~= lit("AZ"));
    assert(occurs_at(line, lit("AZ"), 0));
    assert(has_prefix(line, lit("AZ")));
    lemma_first_occurrence_at(line, lit("AZ"), 0, 0);
    assert forall|k: int| 2 <= k < 2 + l implies is_number_byte(#[trigger] line[k]) by {
        assert(is_number_byte(ta[k - 2]));
    }
    lemma_run_end(line, 2, l);
    assert(line.subrange(2, 2 + l) =~= ta);
    lemma_decimal_text_reads_back(az);
    // the elevation
    assert(line.subrange(3 + l, 5 + l) =~= lit("EL"));
    assert forall|m: int| 0 <= m < 3 + l implies !occurs_at(line, lit("EL"), m) by {
        if occurs_at(line, lit("EL"), m) {
            assert(line.subrange(m, m + 2)[0] == lit("EL")[0]);
            if 2 <= m < 2 + l {
                assert(ta[m - 2] != 69);
            }
        }
    }
    lemma_first_occurrence_at(line, lit("EL"), 0, 3 + l);
    assert forall|k: int| 5 + l <= k < line.len() implies is_number_byte(#[trigger] line[k]) by {
        assert(is_number_byte(te[k - 5 - l]));
    }
    lemma_run_end(line, 5 + l, te.len() as int);
    assert(line.subrange(5 + l, line.len() as int) =~= te);
    lemma_decimal_text_reads_back(el);
}

/// A line made of `LM `, then something, sets limits from that something.
proof fn lemma_limits_line(args: Seq<u8>)
    requires
        args.len() > 0,
    ensures
        easycom_action(lit("LM ") + args) == limits_action(args),
{
    reveal_strlit("VE");
    reveal_strlit("SA");
    reveal_strlit("SE");
    reveal_strlit("SA SE");
    reveal_strlit("LM");
    reveal_strlit("LM ");
    lemma_ascii_lit("VE");
    lemma_ascii_lit("SA");
    lemma_ascii_lit("SE");
    lemma_ascii_lit("SA SE");
    lemma_ascii_lit("LM");
    lemma_ascii_lit("LM ");
    let line = lit("LM ") + args;
    lemma_differs_at(line, lit("VE"), 0);
    lemma_differs_at(line, lit("SA"), 0);
    lemma_differs_at(line, lit("SE"), 0);
    lemma_differs_at(line, lit("SA SE"), 0);
    assert(line.len() > 3);
    assert(line != lit("LM"));
    assert(line.subrange(0, 3) =~= lit("LM "));
    assert(line.subrange(3, line.len() as int) =~= args);
}

/// Four numbers written out as decimal text, separated by spaces, are
/// limits to set.
proof fn lemma_limits_fields(a: Decimal, b: Decimal, c: Decimal, d: Decimal)
    requires
        is_canonical(a),
        is_canonical(b),
        is_canonical(c),
        is_canonical(d),
    ensures
        limits_action(
            decimal_text(a) + seq![32u8] + decimal_text(b) + seq![32u8] + decimal_text(c) + seq![
                32u8,
            ] + decimal_text(d),
        ) == Action::SetLimits(LimitsUpdate { az_min: a, az_max: b, el_min: c, el_max: d }),
{
    let sp = seq![32u8];
    let (ta, tb, tc, td) = (decimal_text(a), decimal_text(b), decimal_text(c), decimal_text(d));
    let args = ta + sp + tb + sp + tc + sp + td;
    lemma_four_fields(a, b, c, d);
    let parts = split_parts(args, 32, 4);
    assert(parts[0] == ta && parts[1] == tb && parts[2] == tc && parts[3] == td);
    lemma_decimal_text_reads_back(a);
    lemma_decimal_text_reads_back(b);
    lemma_decimal_text_reads_back(c);
    lemma_decimal_text_reads_back(d);
    assert(number_field(args, 4, 0) == Some(a));
    assert(number_field(args, 4, 1) == Some(b));
    assert(number_field(args, 4, 2) == Some(c));
    assert(number_field(args, 4, 3) == Some(d));
}

/// `LM <az_min> <az_max> <el_min> <el_max>`, with the limits written out as
/// decimal text, sets exactly those limits.
pub proof fn easycom_limits_carry_the_limits(a: Decimal, b: Decimal, c: Decimal, d: Decimal)
    requires
        is_canonical(a),
        is_canonical(b),
        is_canonical(c),
        is_canonical(d),
    ensures
        easycom_action(
            lit("LM ") + decimal_text(a) + lit(" ") + decimal_text(b) + lit(" ") + decimal_text(c)
                + lit(" ") + decimal_text(d),
        ) == Action::SetLimits(LimitsUpdate { az_min: a, az_max: b, el_min: c, el_max: d }),
{
    reveal_strlit(" ");
    lemma_ascii_lit(" ");
    let sp = lit(" ");
    assert(sp =~= seq![32u8]);
    let (ta, tb, tc, td) = (decimal_text(a), decimal_text(b), decimal_text(c), decimal_text(d));
    let args = ta + sp + tb + sp + tc + sp + td;
    assert(lit("LM ") + ta + sp + tb + sp + tc + sp + td =~= lit("LM ") + args);
    lemma_number_text(a);
    lemma_limits_line(args);
    lemma_limits_fields(a, b, c, d);
}

/// While a fault is present, every serial line is answered with the fault
/// report and sends no command and no limits.
pub proof fn fault_answers_every_serial_line(line: Seq<u8>, k: FaultKind)
    ensures
        serial_outcome(line, Phase::Fault(k)) == Action::Reply(SerialReply::Fault(k)),
{
}

/// While no fault is present, a serial line does what it asks for.
pub proof fn serial_lines_do_what_they_ask(line: Seq<u8>, phase: Phase)
    requires
        !(phase is Fault),
    ensures
        serial_outcome(line, phase) == easycom_action(line),
{
}

/// A line that starts with `AZ` is a position query or a position request.
proof fn lemma_position_line(rest: Seq<u8>)
    ensures
        easycom_action(lit("AZ") + rest) == position_action(lit("AZ") + rest),
{
    reveal_strlit("VE");
    reveal_strlit("SA");
    reveal_strlit("SE");
    reveal_strlit("SA SE");
    reveal_strlit("LM");
    reveal_strlit("LM ");
    reveal_strlit("?");
    reveal_strlit("C");
    reveal_strlit("W ");
    reveal_strlit("AZ");
    lemma_ascii_lit("VE");
    lemma_ascii_lit("SA");
    lemma_ascii_lit("SE");
    lemma_ascii_lit("SA SE");
    lemma_ascii_lit("LM");
    lemma_ascii_lit("LM ");
    lemma_ascii_lit("?");
    lemma_ascii_lit("C");
    lemma_ascii_lit("W ");
    lemma_ascii_lit("AZ");
    let line = lit("AZ") + rest;
    assert(line[0] == 65 && line[1] == 90);
    lemma_differs_at(line, lit("VE"), 0);
    lemma_differs_at(line, lit("SA"), 0);
    lemma_differs_at(line, lit("SE"), 0);
    lemma_differs_at(line, lit("SA SE"), 0);
    lemma_differs_at(line, lit("LM"), 0);
    lemma_differs_at(line, lit("LM "), 0);
    lemma_differs_at(line, lit("?"), 0);
    lemma_differs_at(line, lit("C"), 0);
    lemma_differs_at(line, lit("W "), 0);
}

/// Every line that starts with `AZ` and has no number right after its `AZ`
/// or its first `EL` is a position query, whatever else it holds (such as
/// the `AZ EL ` that clients poll with).
pub proof fn bare_az_queries_the_position(rest: Seq<u8>)
    requires
        value_after(lit("AZ") + rest, lit("AZ")) is None,
        value_after(lit("AZ") + rest, lit("EL")) is None,
    ensures
        easycom_action(lit("AZ") + rest) == Action::Reply(SerialReply::Position),
{
    reveal_strlit("AZ");
    lemma_ascii_lit("AZ");
    let line = lit("AZ") + rest;
    assert(line.subrange(0, 2) =~= lit("AZ"));
    assert(has_prefix(line, lit("AZ")));
    lemma_position_line(rest);
}

/// A line of `AZ` followed by text without any digit or point is a position
/// query.
pub proof fn az_without_numbers_queries_the_position(rest: Seq<u8>)
    requires
        forall|i: int| 0 <= i < rest.len() ==> !is_number_byte(#[trigger] rest[i]),
    ensures
        easycom_action(lit("AZ") + rest) == Action::Reply(SerialReply::Position),
{
    reveal_strlit("AZ");
    reveal_strlit("EL");
    lemma_ascii_lit("AZ");
    lemma_ascii_lit("EL");
    let line = lit("AZ") + rest;
    assert forall|i: int| 2 <= i < line.len() implies !is_number_byte(#[trigger] line[i]) by {
        assert(line[i] == rest[i - 2]);
    }
    // after `AZ`
    assert(line.subrange(0, 2) =~= lit("AZ"));
    lemma_first_occurrence_at(line, lit("AZ"), 0, 0);
    assert(number_run_end(line, 2) == 2);
    // after the first `EL`
    lemma_first_occurrence_from(line, lit("EL"), 0);
    match first_occurrence_from(line, lit("EL"), 0) {
        Some(j) => {
            assert(line.subrange(j, j + 2)[0] == 69);
            assert(j + 2 >= 2);
            assert(number_run_end(line, j + 2) == j + 2);
        },
        None => {},
    }
    bare_az_queries_the_position(rest);
}

} // verus!
