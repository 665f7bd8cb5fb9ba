//! Facts about command text shared by the protocol laws: ASCII literals,
//! decimal fields and where they split.

use vstd::prelude::*;
use vstd::utf8::valid_utf8;

use crate::text::{all_ascii, first_index_of, has_prefix, lemma_ascii_prefix_utf8, lit, split_parts};
use crate::util::{
    decimal_text, is_canonical, is_digit_byte, is_number_byte, lemma_text_shape, unsigned_text,
    Decimal,
};

verus! {

/// The bytes of an ASCII string literal are its characters.
pub(crate) proof fn lemma_ascii_lit(t: &str)
    requires
        vstd::string::is_ascii(t),
    ensures
        all_ascii(lit(t)),
        lit(t).len() == t@.len(),
        forall|i: int| 0 <= i < t@.len() ==> #[trigger] lit(t)[i] == t@[i] as u8,
{
    vstd::string::is_ascii_spec_bytes(t);
    assert forall|i: int| 0 <= i < lit(t).len() implies #[trigger] lit(t)[i] <= 0x7f by {
        assert(vstd::utf8::is_ascii_chars(t@));
        assert((t@[i] as u32) < 128);
    }
}

/// `t` and `x` differ at index `i`: they are not equal, and `x` is no prefix of `t`.
pub(crate) proof fn lemma_differs_at(t: Seq<u8>, x: Seq<u8>, i: int)
    requires
        0 <= i < t.len(),
        i < x.len(),
        t[i] != x[i],
    ensures
        t != x,
        !has_prefix(t, x),
{
    if has_prefix(t, x) {
        assert(t.subrange(0, x.len() as int)[i] == x[i]);
    }
}

pub(crate) proof fn lemma_all_ascii_concat(a: Seq<u8>, b: Seq<u8>)
    requires
        all_ascii(a),
        all_ascii(b),
    ensures
        all_ascii(a + b),
{
    assert forall|i: int| 0 <= i < (a + b).len() implies #[trigger] (a + b)[i] <= 0x7f by {
        if i < a.len() {
            assert((a + b)[i] == a[i]);
        } else {
            assert((a + b)[i] == b[i - a.len()]);
        }
    }
}

/// ASCII text is UTF-8.
pub(crate) proof fn lemma_ascii_line(t: Seq<u8>)
    requires
        all_ascii(t),
    ensures
        valid_utf8(t),
{
    lemma_ascii_prefix_utf8(t, Seq::<u8>::empty());
    assert(t + Seq::<u8>::empty() =~= t);
}

/// The first `b` in `x`, `b`, `y` is the one after `x`, when `x` holds none.
pub(crate) proof fn lemma_first_byte_after(x: Seq<u8>, b: u8, y: Seq<u8>)
    requires
        forall|i: int| 0 <= i < x.len() ==> #[trigger] x[i] != b,
    ensures
        first_index_of(x + seq![b] + y, b) == Some(x.len() as int),
    decreases x.len(),
{
    let s = x + seq![b] + y;
    if x.len() == 0 {
        assert(s[0] == b);
    } else {
        assert(s[0] == x[0]);
        let x1 = x.drop_first();
        assert(s.drop_first() =~= x1 + seq![b] + y);
        assert forall|i: int| 0 <= i < x1.len() implies #[trigger] x1[i] != b by {
            assert(x1[i] == x[i + 1]);
        }
        lemma_first_byte_after(x1, b, y);
    }
}

/// Splitting at spaces takes off a first field that holds no space.
pub(crate) proof fn lemma_split_field(x: Seq<u8>, y: Seq<u8>, n: nat)
    requires
        n >= 1,
        forall|i: int| 0 <= i < x.len() ==> #[trigger] x[i] != 32,
    ensures
        split_parts(x + seq![32u8] + y, 32, n + 1) == seq![x] + split_parts(y, 32, n),
{
    lemma_first_byte_after(x, 32, y);
    let s = x + seq![32u8] + y;
    assert(s.subrange(0, x.len() as int) =~= x);
    assert(s.subrange(x.len() as int + 1, s.len() as int) =~= y);
}

/// What the text of a canonical decimal is made of: ASCII digits, a point
/// and, first, a minus sign when negative; no space and no letter.
pub(crate) proof fn lemma_number_text(d: Decimal)
    requires
        is_canonical(d),
    ensures
        ({
            let t = decimal_text(d);
            &&& all_ascii(t)
            &&& t.len() > 0
            &&& forall|i: int|
                0 <= i < t.len() ==> is_digit_byte(#[trigger] t[i]) || t[i] == 46 || t[i] == 45
            &&& forall|i: int| 0 <= i < t.len() ==> #[trigger] t[i] != 32 && t[i] != 69
            &&& is_digit_byte(t[0]) || t[0] == 45
            &&& is_digit_byte(t.last())
            &&& !d.negative ==> forall|i: int| 0 <= i < t.len() ==> is_number_byte(#[trigger] t[i])
            &&& !d.negative ==> is_digit_byte(t[0])
        }),
{
    lemma_text_shape(d);
    let t = decimal_text(d);
    let r = unsigned_text(d);
    let s: int = if d.negative {
        1
    } else {
        0
    };
    assert forall|i: int| 0 <= i < t.len() implies (is_digit_byte(#[trigger] t[i]) || t[i] == 46)
        || (t[i] == 45 && d.negative && i == 0) by {
        if i >= s {
            assert(t[i] == r[i - s]);
        }
    }
    assert(t.last() == r.last());
    assert forall|i: int| 0 <= i < t.len() implies #[trigger] t[i] <= 0x7f by {
        assert(is_digit_byte(t[i]) || t[i] == 46 || t[i] == 45);
    }
    assert forall|i: int| 0 <= i < t.len() implies #[trigger] t[i] != 32 && t[i] != 69 by {
        assert(is_digit_byte(t[i]) || t[i] == 46 || t[i] == 45);
    }
    if !d.negative {
        assert forall|i: int| 0 <= i < t.len() implies is_number_byte(#[trigger] t[i]) by {
            assert(is_digit_byte(t[i]) || t[i] == 46 || (t[i] == 45 && d.negative));
        }
        assert(t[0] == r[0]);
    }
}

/// Four numbers, separated by single spaces, split into their four fields.
#[verifier::rlimit(30)]
pub(crate) proof fn lemma_four_fields(a: Decimal, b: Decimal, c: Decimal, d: Decimal)
    requires
        is_canonical(a),
        is_canonical(b),
        is_canonical(c),
        is_canonical(d),
    ensures
        ({
            let sp = seq![32u8];
            let (ta, tb, tc, td) = (decimal_text(a), decimal_text(b), decimal_text(c), decimal_text(d));
            &&& split_parts(ta + sp + tb + sp + tc + sp + td, 32, 4) == seq![ta, tb, tc, td]
            &&& all_ascii(ta + sp + tb + sp + tc + sp + td)
        }),
{
    let sp = seq![32u8];
    let (ta, tb, tc, td) = (decimal_text(a), decimal_text(b), decimal_text(c), decimal_text(d));
    lemma_number_text(a);
    lemma_number_text(b);
    lemma_number_text(c);
    lemma_number_text(d);
    let r2 = tc + sp + td;
    let r1 = tb + sp + r2;
    let all = ta + sp + r1;
    assert(all =~= ta + sp + tb + sp + tc + sp + td);
    lemma_split_field(tc, td, 1);
    lemma_split_field(tb, r2, 2);
    lemma_split_field(ta, r1, 3);
    assert(split_parts(all, 32, 4) =~= seq![ta, tb, tc, td]);
    assert(all_ascii(sp));
    lemma_all_ascii_concat(tc, sp);
    lemma_all_ascii_concat(tc + sp, td);
    lemma_all_ascii_concat(tb, sp);
    lemma_all_ascii_concat(tb + sp, r2);
    lemma_all_ascii_concat(ta, sp);
    lemma_all_ascii_concat(ta + sp, r1);
}

} // verus!
