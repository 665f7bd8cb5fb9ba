//! Byte-level text helpers shared by the protocol modules: ASCII literals,
//! comparisons, prefix tests, splitting and decimal rendering.

use vstd::prelude::*;
use vstd::string::StringSliceAdditionalSpecFns;
use vstd::utf8::{pop_first_scalar, valid_utf8};

verus! {

/// The bytes (UTF-8) of a string.
pub open spec fn lit(t: &str) -> Seq<u8> {
    t.spec_bytes()
}

/// The bytes of a string literal.
pub fn literal(t: &str) -> (r: &[u8])
    ensures
        r@ == lit(t),
{
    t.as_bytes()
}

/// `s` is byte for byte the string `t`.
pub fn is_lit(s: &[u8], t: &str) -> (r: bool)
    ensures
        r == (s@ == lit(t)),
{
    bytes_eq(s, literal(t))
}

/// `s` starts with the bytes of the string `t`.
pub fn starts_with_lit(s: &[u8], t: &str) -> (r: bool)
    ensures
        r == has_prefix(s@, lit(t)),
{
    starts_with(s, literal(t))
}

/// Append all of `src` to `out`.
pub fn push_all(out: &mut Vec<u8>, src: &[u8])
    ensures
        final(out)@ == old(out)@ + src@,
{
    let mut i: usize = 0;
    while i < src.len()
        invariant
            0 <= i <= src.len(),
            out@ == old(out)@ + src@.subrange(0, i as int),
        decreases src.len() - i,
    {
        out.push(src[i]);
        i = i + 1;
        assert(out@ =~= old(out)@ + src@.subrange(0, i as int));
    }
    assert(src@.subrange(0, src.len() as int) =~= src@);
}

/// `prefix` is a prefix of `s`.
pub open spec fn has_prefix(s: Seq<u8>, prefix: Seq<u8>) -> bool {
    prefix.len() <= s.len() && s.subrange(0, prefix.len() as int) == prefix
}

/// Byte-wise equality of two slices.
pub fn bytes_eq(a: &[u8], b: &[u8]) -> (r: bool)
    ensures
        r == (a@ == b@),
{
    if a.len() != b.len() {
        return false;
    }
    let mut i: usize = 0;
    while i < a.len()
        invariant
            a.len() == b.len(),
            0 <= i <= a.len(),
            forall|j: int| 0 <= j < i ==> a@[j] == b@[j],
        decreases a.len() - i,
    {
        if a[i] != b[i] {
            return false;
        }
        i = i + 1;
    }
    assert(a@ =~= b@);
    true
}

/// `s` starts with `prefix`.
pub fn starts_with(s: &[u8], prefix: &[u8]) -> (r: bool)
    ensures
        r == has_prefix(s@, prefix@),
{
    if prefix.len() > s.len() {
        return false;
    }
    let head = &s[0..prefix.len()];
    bytes_eq(head, prefix)
}

/// Index of the first occurrence of `b` in `s`, if any.
pub open spec fn first_index_of(s: Seq<u8>, b: u8) -> Option<int>
    decreases s.len(),
{
    if s.len() == 0 {
        None
    } else if s[0] == b {
        Some(0)
    } else {
        match first_index_of(s.drop_first(), b) {
            Some(i) => Some(i + 1),
            None => None,
        }
    }
}

pub proof fn lemma_first_index_of(s: Seq<u8>, b: u8)
    ensures
        match first_index_of(s, b) {
            Some(i) => 0 <= i < s.len() && s[i] == b && forall|j: int| 0 <= j < i ==> s[j] != b,
            None => forall|j: int| 0 <= j < s.len() ==> s[j] != b,
        },
    decreases s.len(),
{
    if s.len() > 0 {
        lemma_first_index_of(s.drop_first(), b);
        if s[0] != b {
            match first_index_of(s.drop_first(), b) {
                Some(i) => {
                    assert forall|j: int| 0 <= j < i + 1 implies s[j] != b by {
                        if j > 0 {
                            assert(s[j] == s.drop_first()[j - 1]);
                        }
                    }
                },
                None => {
                    assert forall|j: int| 0 <= j < s.len() implies s[j] != b by {
                        if j > 0 {
                            assert(s[j] == s.drop_first()[j - 1]);
                        }
                    }
                },
            }
        }
    }
}

/// Position of the first `b` in `s`.
pub fn position_of(s: &[u8], b: u8) -> (r: Option<usize>)
    ensures
        match r {
            Some(i) => first_index_of(s@, b) == Some(i as int),
            None => first_index_of(s@, b) is None,
        },
{
    proof {
        lemma_first_index_of(s@, b);
    }
    let mut i: usize = 0;
    while i < s.len()
        invariant
            0 <= i <= s.len(),
            forall|j: int| 0 <= j < i ==> s@[j] != b,
            match first_index_of(s@, b) {
                Some(k) => 0 <= k < s.len() && s@[k] == b && forall|j: int| 0 <= j < k ==> s@[j] != b,
                None => forall|j: int| 0 <= j < s.len() ==> s@[j] != b,
            },
        decreases s.len() - i,
    {
        if s[i] == b {
            return Some(i);
        }
        i = i + 1;
    }
    None
}

/// The pieces that `splitn(n, sep)` yields on `s`: at most `n` pieces, the
/// last one holding the rest of the input, separators included.
pub open spec fn split_parts(s: Seq<u8>, sep: u8, n: nat) -> Seq<Seq<u8>>
    decreases n,
{
    if n == 0 {
        seq![]
    } else if n == 1 {
        seq![s]
    } else {
        match first_index_of(s, sep) {
            None => seq![s],
            Some(i) => seq![s.subrange(0, i)] + split_parts(s.subrange(i + 1, s.len() as int), sep, (n - 1) as nat),
        }
    }
}

/// The decimal digits of `v`, most significant first, without leading zeros.
pub open spec fn decimal_digits(v: nat) -> Seq<u8>
    decreases v,
{
    if v < 10 {
        seq![(v + 48) as u8]
    } else {
        decimal_digits(v / 10).push(((v % 10) + 48) as u8)
    }
}

/// Append the decimal digits of `v` to `out`.
pub fn push_decimal(out: &mut Vec<u8>, v: u32)
    ensures
        final(out)@ == old(out)@ + decimal_digits(v as nat),
    decreases v,
{
    if v >= 10 {
        push_decimal(out, v / 10);
    }
    out.push((v % 10) as u8 + 48);
    proof {
        if v < 10 {
            assert((v % 10) == v);
        }
        assert(out@ =~= old(out)@ + decimal_digits(v as nat));
    }
}

/// The byte views of a sequence of slices.
pub open spec fn slice_views(parts: Seq<&[u8]>) -> Seq<Seq<u8>> {
    parts.map_values(|p: &[u8]| p@)
}

/// The pieces of `s` that `splitn(n, sep)` yields, in order.
pub fn splitn<'a>(s: &'a [u8], sep: u8, n: usize) -> (parts: Vec<&'a [u8]>)
    ensures
        slice_views(parts@) == split_parts(s@, sep, n as nat),
{
    let mut parts: Vec<&'a [u8]> = Vec::new();
    if n == 0 {
        assert(slice_views(parts@) =~= split_parts(s@, sep, n as nat));
        return parts;
    }
    let mut rest: &'a [u8] = s;
    let mut left: usize = n;
    assert(slice_views(parts@) + split_parts(rest@, sep, left as nat) =~= split_parts(
        s@,
        sep,
        n as nat,
    ));
    loop
        invariant
            1 <= left <= n,
            slice_views(parts@) + split_parts(rest@, sep, left as nat) == split_parts(
                s@,
                sep,
                n as nat,
            ),
        decreases left,
    {
        let ghost before = parts@;
        if left == 1 {
            parts.push(rest);
            assert(slice_views(parts@) =~= slice_views(before) + seq![rest@]);
            return parts;
        }
        proof {
            lemma_first_index_of(rest@, sep);
        }
        match position_of(rest, sep) {
            None => {
                parts.push(rest);
                assert(slice_views(parts@) =~= slice_views(before) + seq![rest@]);
                return parts;
            },
            Some(i) => {
                let len = rest.len();
                assert(i < len);
                let head = &rest[0..i];
                let tail = &rest[i + 1..len];
                assert(split_parts(rest@, sep, left as nat) =~= seq![head@] + split_parts(
                    tail@,
                    sep,
                    (left - 1) as nat,
                ));
                parts.push(head);
                assert(slice_views(parts@) =~= slice_views(before) + seq![head@]);
                rest = tail;
                left = left - 1;
                assert(slice_views(parts@) + split_parts(rest@, sep, left as nat) =~= split_parts(
                    s@,
                    sep,
                    n as nat,
                ));
            },
        }
    }
}

/// Every byte of `p` is ASCII.
pub open spec fn all_ascii(p: Seq<u8>) -> bool {
    forall|i: int| 0 <= i < p.len() ==> #[trigger] p[i] <= 0x7f
}

/// ASCII bytes in front of a text do not change whether it is UTF-8.
pub proof fn lemma_ascii_prefix_utf8(p: Seq<u8>, s: Seq<u8>)
    requires
        all_ascii(p),
    ensures
        valid_utf8(p + s) == valid_utf8(s),
    decreases p.len(),
{
    if p.len() == 0 {
        assert(p + s =~= s);
    } else {
        let b = p + s;
        let a = p[0];
        assert(b[0] == a);
        assert((a & 0x7f) <= 0x7f) by (bit_vector);
        assert(pop_first_scalar(b) =~= p.drop_first() + s);
        assert(all_ascii(p.drop_first())) by {
            assert forall|i: int| 0 <= i < p.drop_first().len() implies #[trigger] p.drop_first()[i]
                <= 0x7f by {
                assert(p.drop_first()[i] == p[i + 1]);
            }
        }
        lemma_ascii_prefix_utf8(p.drop_first(), s);
    }
}

} // verus!
