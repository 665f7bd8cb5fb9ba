//! Laws of the number readers.

use vstd::prelude::*;

use crate::laws::wire::lemma_first_byte_after;
use crate::rotctld::{digits_only, lenient_number, minus_stripped};
use crate::text::{decimal_digits, first_index_of, lemma_first_index_of};
use crate::util::{
    decimal_text, digit_bytes_value, digits_value, is_canonical, is_digit,
    lemma_leading_non_dot_at, strip_leading_ws, strip_trailing_ws, unsigned_part, is_digit_byte, is_white_space,
    lemma_decimal_digits_are_digits, lemma_decimal_reads_back, lemma_decimal_text_reads_back,
    lemma_first_occurrence_from, lemma_minus_negates, lemma_text_shape, lemma_trim_ws_surrounded,
    negated, occurs_at, padded_digits, parse_number_bytes, parse_number_text, u8_from_text,
    unsigned_digits, unsigned_text, value_after, Decimal,
};

verus! {

/// White space around a number does not change how it reads.
pub proof fn surrounding_white_space_is_ignored(pre: Seq<char>, s: Seq<char>, post: Seq<char>)
    requires
        forall|i: int| 0 <= i < pre.len() ==> is_white_space(#[trigger] pre[i]),
        forall|i: int| 0 <= i < post.len() ==> is_white_space(#[trigger] post[i]),
    ensures
        parse_number_text(pre + s + post) == parse_number_text(s),
{
    lemma_trim_ws_surrounded(pre, s, post);
}

/// A `-` written right before a number makes it negative and changes
/// nothing else.
pub proof fn leading_minus_negates(s: Seq<char>)
    requires
        s.len() == 0 || (!is_white_space(s[0]) && s[0] != '-' && s[0] != '+'),
    ensures
        parse_number_text(seq!['-'] + s) == negated(parse_number_text(s)),
{
    lemma_minus_negates(s);
}

/// Decimal text written for a number reads back as that number, by the
/// EasyComm/rotctld reader, by the stub responder's reader and, for a
/// byte, by the byte reader.
pub proof fn decimal_text_reads_back(v: u32)
    ensures
        parse_number_bytes(decimal_digits(v as nat)) == Some(
            Decimal { negative: false, integer: v, fraction: 0, fraction_digits: 0 },
        ),
        lenient_number(decimal_digits(v as nat)) == Some(
            Decimal { negative: false, integer: v, fraction: 0, fraction_digits: 0 },
        ),
        v <= 255 ==> u8_from_text(decimal_digits(v as nat)) == Some(v as u8),
{
    lemma_decimal_reads_back(v);
    let b = decimal_digits(v as nat);
    lemma_decimal_digits_are_digits(v as nat);
    lemma_first_index_of(b, 46);
    if first_index_of(b, 46) is Some {
        let k = first_index_of(b, 46)->0;
        assert(is_digit_byte(b[k]));
    }
    assert(minus_stripped(b) == b);
    assert(unsigned_digits(b) == b);
    assert(digits_only(Seq::<u8>::empty()) == Seq::<u8>::empty());
    assert(forall|i: int| 0 <= i < b.len() ==> (48 <= #[trigger] b[i] <= 57) || b[i] == 46) by {
        assert forall|i: int| 0 <= i < b.len() implies (48 <= #[trigger] b[i] <= 57) || b[i] == 46 by {
            assert(is_digit_byte(b[i]));
        }
    }
}

proof fn lemma_digits_only_keeps(x: Seq<u8>)
    requires
        forall|i: int| 0 <= i < x.len() ==> #[trigger] x[i] != 46,
    ensures
        digits_only(x) == x,
    decreases x.len(),
{
    if x.len() > 0 {
        assert forall|i: int| 0 <= i < x.drop_last().len() implies #[trigger] x.drop_last()[i]
            != 46 by {
            assert(x.drop_last()[i] == x[i]);
        }
        lemma_digits_only_keeps(x.drop_last());
        assert(x.last() != 46);
        assert(x.drop_last().push(x.last()) =~= x);
    }
}

/// The stub responder's reader takes the sign off the text of a decimal
/// and finds only digits and points after it.
proof fn lemma_lenient_sign(d: Decimal)
    requires
        is_canonical(d),
    ensures
        decimal_text(d).len() > 0,
        (decimal_text(d)[0] == 45) == d.negative,
        minus_stripped(decimal_text(d)) == unsigned_text(d),
        forall|i: int|
            0 <= i < unsigned_text(d).len() ==> (48 <= #[trigger] unsigned_text(d)[i] <= 57)
                || unsigned_text(d)[i] == 46,
{
    lemma_text_shape(d);
    let t = decimal_text(d);
    let r = unsigned_text(d);
    if d.negative {
        assert(t[0] == 45);
        assert(t.drop_first() =~= r);
    } else {
        assert(t =~= r);
        assert(is_digit_byte(t[0]));
    }
    assert forall|i: int| 0 <= i < r.len() implies (48 <= #[trigger] r[i] <= 57) || r[i] == 46 by {
        assert(is_digit_byte(r[i]) || r[i] == 46);
    }
}

/// The stub responder's reader splits the text after the sign into the
/// integer digits and the fraction digits.
proof fn lemma_lenient_parts(d: Decimal)
    requires
        is_canonical(d),
    ensures
        ({
            let r = unsigned_text(d);
            let id = decimal_digits(d.integer as nat);
            let pd = padded_digits(d.fraction as nat, d.fraction_digits as nat);
            &&& match first_index_of(r, 46) {
                Some(k) => r.subrange(0, k) == id && digits_only(r.subrange(k + 1, r.len() as int))
                    == pd && d.fraction_digits > 0,
                None => r == id && d.fraction_digits == 0,
            }
            &&& digit_bytes_value(id) == d.integer
            &&& d.fraction_digits > 0 ==> digit_bytes_value(pd) == d.fraction && pd.len()
                == d.fraction_digits
        }),
{
    lemma_text_shape(d);
    let r = unsigned_text(d);
    let id = decimal_digits(d.integer as nat);
    let pd = padded_digits(d.fraction as nat, d.fraction_digits as nat);
    assert forall|i: int| 0 <= i < id.len() implies #[trigger] id[i] != 46 by {
        assert(is_digit_byte(id[i]));
    }
    if d.fraction_digits > 0 {
        assert(r =~= id + seq![46u8] + pd);
        lemma_first_byte_after(id, 46, pd);
        assert(r.subrange(0, id.len() as int) =~= id);
        assert forall|i: int| 0 <= i < pd.len() implies #[trigger] pd[i] != 46 by {
            assert(is_digit_byte(pd[i]));
        }
        lemma_digits_only_keeps(pd);
    } else {
        lemma_first_index_of(r, 46);
        if first_index_of(r, 46) is Some {
            let k = first_index_of(r, 46)->0;
            assert(is_digit_byte(r[k]));
        }
    }
}

/// The text of a decimal, with at most six fraction digits and a fraction
/// below its denominator, reads back as that decimal, both by the
/// EasyComm/rotctld reader and by the stub responder's reader.
pub proof fn decimal_text_reads_back_exactly(d: Decimal)
    requires
        is_canonical(d),
    ensures
        parse_number_bytes(decimal_text(d)) == Some(d),
        lenient_number(decimal_text(d)) == Some(d),
{
    lemma_decimal_text_reads_back(d);
    lemma_lenient_sign(d);
    lemma_lenient_parts(d);
    let m: nat = 0x1_0000_0000;
    vstd::arithmetic::div_mod::lemma_small_mod(d.integer as nat, m);
    vstd::arithmetic::div_mod::lemma_small_mod(d.fraction as nat, m);
    vstd::arithmetic::div_mod::lemma_small_mod(d.fraction_digits as nat, m);
    if d.fraction_digits == 0 {
        assert(d.fraction == 0);
        assert(digits_only(Seq::<u8>::empty()) == Seq::<u8>::empty());
        vstd::arithmetic::div_mod::lemma_small_mod(0, m);
    }
}

/// How digits, a point and at least six more digits read: the integer
/// part, and the first six fraction digits.
proof fn lemma_fraction_reading(d: Seq<char>, g: Seq<char>)
    requires
        forall|i: int| 0 <= i < d.len() ==> is_digit(#[trigger] d[i]),
        forall|i: int| 0 <= i < g.len() ==> is_digit(#[trigger] g[i]),
        g.len() >= 6,
    ensures
        parse_number_text(d + seq!['.'] + g) == (if digits_value(d) <= u32::MAX {
            Some(
                Decimal {
                    negative: false,
                    integer: digits_value(d) as u32,
                    fraction: digits_value(g.subrange(0, 6)) as u32,
                    fraction_digits: 6,
                },
            )
        } else {
            None
        }),
{
    let s = d + seq!['.'] + g;
    let k = d.len() as int;
    assert forall|i: int| 0 <= i < s.len() implies is_digit(#[trigger] s[i]) || (s[i] == '.' && i
        == k) by {
        if i < k {
            assert(s[i] == d[i]);
        } else if i > k {
            assert(s[i] == g[i - k - 1]);
        }
    }
    assert(is_digit(s[0]) || s[0] == '.');
    assert(!is_white_space(s[0]));
    assert(strip_leading_ws(s) == s);
    assert(s.last() == g.last());
    assert(is_digit(g[g.len() - 1]));
    assert(!is_white_space(s.last()));
    assert(strip_trailing_ws(s) == s);
    assert(unsigned_part(s) == s);
    assert forall|j: int| 0 <= j < k implies #[trigger] s[j] != '.' by {
        assert(is_digit(s[j]));
    }
    lemma_leading_non_dot_at(s, k);
    assert(s.subrange(0, k) =~= d);
    assert(s.subrange(k + 1, s.len() as int) =~= g);
    assert forall|i: int, j: int| 0 <= i < j < s.len() implies !(#[trigger] s[i] == '.'
        && #[trigger] s[j] == '.') by {
        assert(is_digit(s[i]) || (s[i] == '.' && i == k));
        assert(is_digit(s[j]) || (s[j] == '.' && j == k));
    }
    assert forall|i: int| 0 <= i < s.len() implies is_digit(#[trigger] s[i]) || s[i] == '.' by {
        assert(is_digit(s[i]) || (s[i] == '.' && i == k));
    }
    assert(is_digit(s[k + 1]));
}

/// Digits after the sixth fraction digit do not change how a number reads:
/// `d.ffffffx…` reads as `d.ffffff`.
pub proof fn digits_after_sixth_are_ignored(d: Seq<char>, f: Seq<char>, x: Seq<char>)
    requires
        forall|i: int| 0 <= i < d.len() ==> is_digit(#[trigger] d[i]),
        forall|i: int| 0 <= i < f.len() ==> is_digit(#[trigger] f[i]),
        forall|i: int| 0 <= i < x.len() ==> is_digit(#[trigger] x[i]),
        f.len() == 6,
    ensures
        parse_number_text(d + seq!['.'] + f + x) == parse_number_text(d + seq!['.'] + f),
{
    let g = f + x;
    assert forall|i: int| 0 <= i < g.len() implies is_digit(#[trigger] g[i]) by {
        if i < f.len() {
            assert(g[i] == f[i]);
        } else {
            assert(g[i] == x[i - f.len()]);
        }
    }
    assert(d + seq!['.'] + f + x =~= d + seq!['.'] + g);
    lemma_fraction_reading(d, g);
    lemma_fraction_reading(d, f);
    assert(g.subrange(0, 6) =~= f);
    assert(f.subrange(0, 6) =~= f);
}

/// A number is found after a prefix only where the prefix occurs.
pub proof fn number_after_prefix_needs_the_prefix(line: Seq<u8>, prefix: Seq<u8>)
    ensures
        value_after(line, prefix) is Some ==> exists|i: int| occurs_at(line, prefix, i),
{
    lemma_first_occurrence_from(line, prefix, 0);
}

} // verus!
