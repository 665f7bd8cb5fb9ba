//! Laws of the position-in-memory rotctld responder.

use vstd::prelude::*;

use crate::laws::numbers::decimal_text_reads_back_exactly;
use crate::laws::wire::{
    lemma_ascii_lit, lemma_differs_at, lemma_first_byte_after, lemma_number_text,
};
use crate::rotctld::{
    collected_after_all, is_blank, strip_leading_blanks, strip_trailing_blanks, stub_reply,
    trim_blanks, two_numbers, StubReply, STUB_LINE_CAPACITY,
};
use crate::text::{has_prefix, lit};
use crate::util::{decimal_text, is_canonical, Decimal};

verus! {

/// Text that neither starts nor ends with a blank is left as it is by trimming.
proof fn lemma_trim_keeps(s: Seq<u8>)
    requires
        s.len() > 0,
        s[0] != 32 && s[0] != 13 && s[0] != 9,
        s.last() != 32 && s.last() != 13 && s.last() != 9,
    ensures
        trim_blanks(s) == s,
{
    assert(strip_leading_blanks(s) == s);
    assert(strip_trailing_blanks(s) == s);
}

/// `P ` and arguments that neither start nor end with a blank are a
/// position to store, as the arguments read.
proof fn lemma_set_pos_line(args: Seq<u8>)
    requires
        args.len() > 0,
        args[0] != 32 && args[0] != 13 && args[0] != 9,
        args.last() != 32 && args.last() != 13 && args.last() != 9,
    ensures
        stub_reply(lit("P ") + args) == match two_numbers(args) {
            Some((az, el)) => StubReply::PositionSet(az, el),
            None => StubReply::Rejected,
        },
{
    reveal_strlit("p");
    reveal_strlit("\\get_pos");
    reveal_strlit("S");
    reveal_strlit("\\stop");
    reveal_strlit("_");
    reveal_strlit("\\get_info");
    reveal_strlit("q");
    reveal_strlit("Q");
    reveal_strlit("\\dump_state");
    reveal_strlit("P ");
    lemma_ascii_lit("p");
    lemma_ascii_lit("\\get_pos");
    lemma_ascii_lit("S");
    lemma_ascii_lit("\\stop");
    lemma_ascii_lit("_");
    lemma_ascii_lit("\\get_info");
    lemma_ascii_lit("q");
    lemma_ascii_lit("Q");
    lemma_ascii_lit("\\dump_state");
    lemma_ascii_lit("P ");
    let line = lit("P ") + args;
    assert(line.last() == args.last());
    lemma_trim_keeps(line);
    lemma_differs_at(line, lit("p"), 0);
    lemma_differs_at(line, lit("\\get_pos"), 0);
    lemma_differs_at(line, lit("S"), 0);
    lemma_differs_at(line, lit("\\stop"), 0);
    lemma_differs_at(line, lit("_"), 0);
    lemma_differs_at(line, lit("\\get_info"), 0);
    lemma_differs_at(line, lit("q"), 0);
    lemma_differs_at(line, lit("Q"), 0);
    lemma_differs_at(line, lit("\\dump_state"), 0);
    assert(line.subrange(0, 2) =~= lit("P "));
    assert(has_prefix(line, lit("P ")));
    assert(line.subrange(2, line.len() as int) =~= args);
}

/// Two numbers written out as decimal text, separated by a space, read as
/// those numbers.
proof fn lemma_two_texts(az: Decimal, el: Decimal)
    requires
        is_canonical(az),
        is_canonical(el),
    ensures
        two_numbers(decimal_text(az) + seq![32u8] + decimal_text(el)) == Some((az, el)),
{
    let ta = decimal_text(az);
    let te = decimal_text(el);
    lemma_number_text(az);
    lemma_number_text(el);
    let args = ta + seq![32u8] + te;
    assert(args[0] == ta[0]);
    assert(args.last() == te.last());
    lemma_trim_keeps(args);
    lemma_first_byte_after(ta, 32, te);
    assert(args.subrange(0, ta.len() as int) =~= ta);
    assert(args.subrange(ta.len() as int + 1, args.len() as int) =~= te);
    lemma_trim_keeps(te);
    decimal_text_reads_back_exactly(az);
    decimal_text_reads_back_exactly(el);
}

/// `P <az> <el>`, with the angles written out as decimal text, stores
/// exactly those angles.
pub proof fn responder_stores_the_angles(az: Decimal, el: Decimal)
    requires
        is_canonical(az),
        is_canonical(el),
    ensures
        stub_reply(lit("P ") + decimal_text(az) + lit(" ") + decimal_text(el))
            == StubReply::PositionSet(az, el),
{
    reveal_strlit(" ");
    lemma_ascii_lit(" ");
    let ta = decimal_text(az);
    let te = decimal_text(el);
    lemma_number_text(az);
    lemma_number_text(el);
    assert(lit(" ") =~= seq![32u8]);
    let args = ta + seq![32u8] + te;
    assert(lit("P ") + ta + lit(" ") + te =~= lit("P ") + args);
    assert(args[0] == ta[0]);
    assert(args.last() == te.last());
    lemma_set_pos_line(args);
    lemma_two_texts(az, el);
}

/// The responder keeps the start of a line: fed one by one to an empty
/// collector, bytes that hold no newline leave it holding the first
/// [`STUB_LINE_CAPACITY`] of them (all of them when they fit); the rest are
/// dropped.
pub proof fn responder_keeps_line_start(bytes: Seq<u8>)
    requires
        forall|i: int| 0 <= i < bytes.len() ==> #[trigger] bytes[i] != 10,
    ensures
        collected_after_all(Seq::<u8>::empty(), bytes) == bytes.take(
            if bytes.len() < STUB_LINE_CAPACITY {
                bytes.len() as int
            } else {
                STUB_LINE_CAPACITY as int
            },
        ),
    decreases bytes.len(),
{
    if bytes.len() == 0 {
        assert(bytes.take(0) =~= Seq::<u8>::empty());
    } else {
        let d = bytes.drop_last();
        assert forall|i: int| 0 <= i < d.len() implies #[trigger] d[i] != 10 by {
            assert(d[i] == bytes[i]);
        }
        responder_keeps_line_start(d);
        assert(bytes.last() != 10);
        if d.len() < STUB_LINE_CAPACITY {
            assert(d.take(d.len() as int).push(bytes.last()) =~= bytes.take(bytes.len() as int));
        } else {
            assert(d.take(STUB_LINE_CAPACITY as int) =~= bytes.take(STUB_LINE_CAPACITY as int));
        }
    }
}

proof fn lemma_strip_leading_blanks_prefix(pre: Seq<u8>, x: Seq<u8>)
    requires
        forall|i: int| 0 <= i < pre.len() ==> is_blank(#[trigger] pre[i]),
    ensures
        strip_leading_blanks(pre + x) == strip_leading_blanks(x),
    decreases pre.len(),
{
    if pre.len() > 0 {
        assert((pre + x)[0] == pre[0]);
        assert((pre + x).drop_first() =~= pre.drop_first() + x);
        assert forall|i: int| 0 <= i < pre.drop_first().len() implies is_blank(
            #[trigger] pre.drop_first()[i],
        ) by {
            assert(pre.drop_first()[i] == pre[i + 1]);
        }
        lemma_strip_leading_blanks_prefix(pre.drop_first(), x);
    } else {
        assert(pre + x =~= x);
    }
}

proof fn lemma_strip_trailing_blanks_suffix(x: Seq<u8>, post: Seq<u8>)
    requires
        forall|i: int| 0 <= i < post.len() ==> is_blank(#[trigger] post[i]),
    ensures
        strip_trailing_blanks(x + post) == strip_trailing_blanks(x),
    decreases post.len(),
{
    if post.len() > 0 {
        assert((x + post).last() == post.last());
        assert(is_blank(post[post.len() - 1]));
        assert((x + post).drop_last() =~= x + post.drop_last());
        assert forall|i: int| 0 <= i < post.drop_last().len() implies is_blank(
            #[trigger] post.drop_last()[i],
        ) by {
            assert(post.drop_last()[i] == post[i]);
        }
        lemma_strip_trailing_blanks_suffix(x, post.drop_last());
    } else {
        assert(x + post =~= x);
    }
}

/// Blanks around a word that neither starts nor ends with one are trimmed
/// off, and only they.
proof fn lemma_trim_around(pre: Seq<u8>, x: Seq<u8>, post: Seq<u8>)
    requires
        forall|i: int| 0 <= i < pre.len() ==> is_blank(#[trigger] pre[i]),
        forall|i: int| 0 <= i < post.len() ==> is_blank(#[trigger] post[i]),
        x.len() > 0,
        !is_blank(x[0]),
        !is_blank(x.last()),
    ensures
        trim_blanks(pre + x + post) == x,
{
    assert(pre + x + post =~= pre + (x + post));
    lemma_strip_leading_blanks_prefix(pre, x + post);
    assert((x + post)[0] == x[0]);
    assert(strip_leading_blanks(x + post) == x + post);
    lemma_strip_trailing_blanks_suffix(x, post);
    assert(strip_trailing_blanks(x) == x);
}

/// Each of the responder's commands reads the same under its long name as
/// under its short one, with any blanks around it: `p` and `\get_pos`
/// report the position, `S` and `\stop` stop, `_` and `\get_info` give
/// the model.
pub proof fn responder_long_names_match(pre: Seq<u8>, post: Seq<u8>)
    requires
        forall|i: int| 0 <= i < pre.len() ==> is_blank(#[trigger] pre[i]),
        forall|i: int| 0 <= i < post.len() ==> is_blank(#[trigger] post[i]),
    ensures
        stub_reply(pre + lit("p") + post) == StubReply::Position,
        stub_reply(pre + lit("\\get_pos") + post) == StubReply::Position,
        stub_reply(pre + lit("S") + post) == StubReply::Stopped,
        stub_reply(pre + lit("\\stop") + post) == StubReply::Stopped,
        stub_reply(pre + lit("_") + post) == StubReply::Info,
        stub_reply(pre + lit("\\get_info") + post) == StubReply::Info,
{
    reveal_strlit("p");
    reveal_strlit("\\get_pos");
    reveal_strlit("S");
    reveal_strlit("\\stop");
    reveal_strlit("_");
    reveal_strlit("\\get_info");
    lemma_ascii_lit("p");
    lemma_ascii_lit("\\get_pos");
    lemma_ascii_lit("S");
    lemma_ascii_lit("\\stop");
    lemma_ascii_lit("_");
    lemma_ascii_lit("\\get_info");
    lemma_trim_around(pre, lit("p"), post);
    lemma_trim_around(pre, lit("\\get_pos"), post);
    lemma_trim_around(pre, lit("S"), post);
    lemma_trim_around(pre, lit("\\stop"), post);
    lemma_trim_around(pre, lit("_"), post);
    lemma_trim_around(pre, lit("\\get_info"), post);
    lemma_differs_at(lit("S"), lit("p"), 0);
    lemma_differs_at(lit("S"), lit("\\get_pos"), 0);
    lemma_differs_at(lit("\\stop"), lit("p"), 0);
    lemma_differs_at(lit("\\stop"), lit("\\get_pos"), 1);
    lemma_differs_at(lit("_"), lit("p"), 0);
    lemma_differs_at(lit("_"), lit("\\get_pos"), 0);
    lemma_differs_at(lit("_"), lit("S"), 0);
    lemma_differs_at(lit("_"), lit("\\stop"), 0);
    lemma_differs_at(lit("\\get_info"), lit("p"), 0);
    lemma_differs_at(lit("\\get_info"), lit("\\get_pos"), 5);
    lemma_differs_at(lit("\\get_info"), lit("S"), 0);
    lemma_differs_at(lit("\\get_info"), lit("\\stop"), 1);
}

} // verus!
