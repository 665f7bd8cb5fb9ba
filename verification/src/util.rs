//! Number reading and line scanning used by the EasyComm and rotctld
//! front ends.
//!
//! Angles on the wire are decimal text.  The library reads that text into
//! an exact [`Decimal`]; turning a `Decimal` into an `f32` is floating-point
//! work and happens next to the hardware.

use vstd::prelude::*;
use vstd::string::StringSliceAdditionalSpecFns;
use vstd::utf8::{decode_utf8, valid_utf8};

use crate::text::decimal_digits;

verus! {

/// A decimal number as read from text: its sign, its integer part and the
/// first `fraction_digits` digits after the point, read as the integer
/// `fraction`.  Its value is `±(integer + fraction / 10^fraction_digits)`.
#[derive(Clone, Copy, Debug, PartialEq, Eq, Structural)]
pub struct Decimal {
    pub negative: bool,
    pub integer: u32,
    pub fraction: u32,
    pub fraction_digits: u32,
}

/// Unicode `White_Space`, the set of characters that `str::trim` removes.
pub open spec fn is_white_space(c: char) -> bool {
    let v = c as u32;
    ||| 9 <= v <= 13
    ||| v == 32 || v == 0x85 || v == 0xA0 || v == 0x1680
    ||| 0x2000 <= v <= 0x200A
    ||| v == 0x2028 || v == 0x2029 || v == 0x202F || v == 0x205F || v == 0x3000
}

/// Whether `c` has the Unicode `White_Space` property.
pub fn char_is_white_space(c: char) -> (r: bool)
    ensures
        r == is_white_space(c),
{
    let v = c as u32;
    (9 <= v && v <= 13) || v == 32 || v == 0x85 || v == 0xA0 || v == 0x1680 || (0x2000 <= v && v
        <= 0x200A) || v == 0x2028 || v == 0x2029 || v == 0x202F || v == 0x205F || v == 0x3000
}

pub open spec fn strip_leading_ws(s: Seq<char>) -> Seq<char>
    decreases s.len(),
{
    if s.len() > 0 && is_white_space(s[0]) {
        strip_leading_ws(s.drop_first())
    } else {
        s
    }
}

pub open spec fn strip_trailing_ws(s: Seq<char>) -> Seq<char>
    decreases s.len(),
{
    if s.len() > 0 && is_white_space(s.last()) {
        strip_trailing_ws(s.drop_last())
    } else {
        s
    }
}

/// `s` without its leading and trailing white space.
pub open spec fn trim_ws(s: Seq<char>) -> Seq<char> {
    strip_trailing_ws(strip_leading_ws(s))
}

pub open spec fn is_digit(c: char) -> bool {
    48 <= c as u32 <= 57
}

pub open spec fn digit_value(c: char) -> nat {
    (c as u32 - 48) as nat
}

/// The number that a run of decimal digits spells.
pub open spec fn digits_value(ds: Seq<char>) -> nat
    decreases ds.len(),
{
    if ds.len() == 0 {
        0
    } else {
        digits_value(ds.drop_last()) * 10 + digit_value(ds.last())
    }
}

pub open spec fn pow10(n: nat) -> nat
    decreases n,
{
    if n == 0 {
        1
    } else {
        10 * pow10((n - 1) as nat)
    }
}

/// Number of characters before the first `.` (all of them when there is none).
pub open spec fn leading_non_dot(b: Seq<char>) -> nat
    decreases b.len(),
{
    if b.len() > 0 && b[0] != '.' {
        1 + leading_non_dot(b.drop_first())
    } else {
        0
    }
}

/// Digits with at most one decimal point, and at least one digit.
pub open spec fn well_formed_number(b: Seq<char>) -> bool {
    &&& forall|i: int| 0 <= i < b.len() ==> is_digit(#[trigger] b[i]) || b[i] == '.'
    &&& forall|i: int, j: int| 0 <= i < j < b.len() ==> !(#[trigger] b[i] == '.' && #[trigger] b[j] == '.')
    &&& exists|i: int| 0 <= i < b.len() && is_digit(#[trigger] b[i])
}

/// The text after an optional leading `-` or `+`.
pub open spec fn unsigned_part(t: Seq<char>) -> Seq<char> {
    if t.len() > 0 && (t[0] == '-' || t[0] == '+') {
        t.drop_first()
    } else {
        t
    }
}

/// What a reading of `s` as a decimal number gives: white space around it
/// is ignored, a sign is optional, the integer part must fit in a `u32`,
/// and of the fraction the first six digits are kept.
pub open spec fn parse_number_text(s: Seq<char>) -> Option<Decimal> {
    let t = trim_ws(s);
    if t.len() == 0 {
        None
    } else {
        let body = unsigned_part(t);
        let k = leading_non_dot(body) as int;
        let whole = digits_value(body.subrange(0, k));
        let frac = if k < body.len() {
            body.subrange(k + 1, body.len() as int)
        } else {
            Seq::<char>::empty()
        };
        let kept: nat = if frac.len() < 6 {
            frac.len()
        } else {
            6
        };
        if well_formed_number(body) && whole <= u32::MAX {
            Some(
                Decimal {
                    negative: t[0] == '-',
                    integer: whole as u32,
                    fraction: digits_value(frac.subrange(0, kept as int)) as u32,
                    fraction_digits: kept as u32,
                },
            )
        } else {
            None
        }
    }
}

/// What a reading of the bytes `b` as a decimal number gives: the bytes
/// must be UTF-8, and their text is read as [`parse_number_text`] says.
pub open spec fn parse_number_bytes(b: Seq<u8>) -> Option<Decimal> {
    if valid_utf8(b) {
        parse_number_text(decode_utf8(b))
    } else {
        None
    }
}

proof fn lemma_strip_leading_step(s: Seq<char>, a: int)
    requires
        0 <= a < s.len(),
        is_white_space(s[a]),
    ensures
        strip_leading_ws(s.subrange(a, s.len() as int)) == strip_leading_ws(
            s.subrange(a + 1, s.len() as int),
        ),
{
    assert(s.subrange(a, s.len() as int).drop_first() =~= s.subrange(a + 1, s.len() as int));
}

proof fn lemma_strip_trailing_step(s: Seq<char>, a: int, e: int)
    requires
        0 <= a < e <= s.len(),
        is_white_space(s[e - 1]),
    ensures
        strip_trailing_ws(s.subrange(a, e)) == strip_trailing_ws(s.subrange(a, e - 1)),
{
    assert(s.subrange(a, e).drop_last() =~= s.subrange(a, e - 1));
}

/// The bounds of `trim_ws(chars)` inside `chars`.
fn trim_bounds(chars: &Vec<char>) -> (r: (usize, usize))
    ensures
        r.0 <= r.1 <= chars.len(),
        chars@.subrange(r.0 as int, r.1 as int) == trim_ws(chars@),
{
    let n = chars.len();
    let mut start: usize = 0;
    assert(chars@.subrange(0, n as int) =~= chars@);
    while start < n && char_is_white_space(chars[start])
        invariant
            n == chars.len(),
            0 <= start <= n,
            strip_leading_ws(chars@) == strip_leading_ws(chars@.subrange(start as int, n as int)),
        decreases n - start,
    {
        proof {
            lemma_strip_leading_step(chars@, start as int);
        }
        start = start + 1;
    }
    assert(strip_leading_ws(chars@) == chars@.subrange(start as int, n as int));
    let mut end: usize = n;
    while end > start && char_is_white_space(chars[end - 1])
        invariant
            n == chars.len(),
            0 <= start <= end <= n,
            strip_leading_ws(chars@) == chars@.subrange(start as int, n as int),
            trim_ws(chars@) == strip_trailing_ws(chars@.subrange(start as int, end as int)),
        decreases end - start,
    {
        proof {
            lemma_strip_trailing_step(chars@, start as int, end as int);
        }
        end = end - 1;
    }
    (start, end)
}

/// The characters of `s`, in order.
fn chars_of(s: &str) -> (v: Vec<char>)
    ensures
        v@ == s@,
{
    let mut v: Vec<char> = Vec::new();
    for c in it: s.chars()
        invariant
            v@ == it.seq().take(it.index() as int),
            it.seq() == s@,
    {
        v.push(c);
    }
    v
}

pub proof fn lemma_leading_non_dot(b: Seq<char>)
    ensures
        leading_non_dot(b) <= b.len(),
        forall|j: int| 0 <= j < leading_non_dot(b) ==> b[j] != '.',
        leading_non_dot(b) < b.len() ==> b[leading_non_dot(b) as int] == '.',
    decreases b.len(),
{
    if b.len() > 0 && b[0] != '.' {
        lemma_leading_non_dot(b.drop_first());
        assert forall|j: int| 0 <= j < leading_non_dot(b) implies b[j] != '.' by {
            if j > 0 {
                assert(b[j] == b.drop_first()[j - 1]);
            }
        }
    }
}

proof fn lemma_digits_value_extend(b: Seq<char>, n: int)
    requires
        0 <= n < b.len(),
    ensures
        digits_value(b.subrange(0, n + 1)) == digits_value(b.subrange(0, n)) * 10 + digit_value(
            b[n],
        ),
{
    assert(b.subrange(0, n + 1).drop_last() =~= b.subrange(0, n));
}

proof fn lemma_digits_value_range_extend(b: Seq<char>, a: int, n: int)
    requires
        0 <= a <= n < b.len(),
    ensures
        digits_value(b.subrange(a, n + 1)) == digits_value(b.subrange(a, n)) * 10 + digit_value(
            b[n],
        ),
{
    assert(b.subrange(a, n + 1).drop_last() =~= b.subrange(a, n));
}

proof fn lemma_digits_value_monotone(b: Seq<char>, m: int, n: int)
    requires
        0 <= m <= n <= b.len(),
    ensures
        digits_value(b.subrange(0, m)) <= digits_value(b.subrange(0, n)),
    decreases n - m,
{
    if m < n {
        lemma_digits_value_monotone(b, m, n - 1);
        lemma_digits_value_extend(b, n - 1);
    }
}

pub proof fn lemma_digits_value_bound(ds: Seq<char>)
    requires
        forall|i: int| 0 <= i < ds.len() ==> is_digit(#[trigger] ds[i]),
    ensures
        digits_value(ds) < pow10(ds.len()),
    decreases ds.len(),
{
    if ds.len() > 0 {
        let d = ds.drop_last();
        assert forall|i: int| 0 <= i < d.len() implies is_digit(#[trigger] d[i]) by {
            assert(d[i] == ds[i]);
        }
        lemma_digits_value_bound(d);
        assert(is_digit(ds[ds.len() - 1]));
    }
}

proof fn lemma_parse_rejects(s: Seq<char>, t: Seq<char>, body: Seq<char>)
    requires
        t == trim_ws(s),
        t.len() > 0,
        body == unsigned_part(t),
        !well_formed_number(body) || digits_value(body.subrange(0, leading_non_dot(body) as int))
            > u32::MAX,
    ensures
        parse_number_text(s) is None,
{
}

proof fn lemma_pow10_small(n: nat)
    requires
        n <= 5,
    ensures
        pow10(n) <= 100000,
{
    reveal_with_fuel(pow10, 7);
    if n == 0 {
    } else if n == 1 {
    } else if n == 2 {
    } else if n == 3 {
    } else if n == 4 {
    } else {
    }
}

/// Read `s` as a decimal number: optional surrounding white space, an
/// optional `-` or `+`, digits with at most one `.`, at least one digit.
/// `None` when the text is not such a number or its integer part does not
/// fit in a `u32`.
pub fn parse_f32(s: &str) -> (r: Option<Decimal>)
    ensures
        r == parse_number_text(s@),
{
    let chars = chars_of(s);
    let (start, end) = trim_bounds(&chars);
    let ghost t = chars@.subrange(start as int, end as int);
    assert(t == trim_ws(s@));
    if start == end {
        return None;
    }
    let first = chars[start];
    let negative = first == '-';
    let b0: usize = if first == '-' || first == '+' {
        start + 1
    } else {
        start
    };
    let ghost body = chars@.subrange(b0 as int, end as int);
    assert(body =~= unsigned_part(t));
    proof {
        lemma_leading_non_dot(body);
    }
    let ghost k = leading_non_dot(body) as int;

    let mut integer_part: u32 = 0;
    let mut fraction_part: u32 = 0;
    let mut fraction_digits: u32 = 0;
    let mut seen_dot = false;
    let mut any_digit = false;
    let mut i: usize = b0;
    proof {
        assert(body.subrange(0, 0) =~= Seq::<char>::empty());
    }
    while i < end
        invariant
            b0 <= i <= end <= chars.len(),
            body == chars@.subrange(b0 as int, end as int),
            t == trim_ws(s@),
            t.len() > 0,
            body == unsigned_part(t),
            k == leading_non_dot(body),
            0 <= k <= body.len(),
            forall|j: int| 0 <= j < k ==> body[j] != '.',
            k < body.len() ==> body[k] == '.',
            forall|j: int| 0 <= j < i - b0 ==> is_digit(#[trigger] body[j]) || body[j] == '.',
            forall|a: int, c: int|
                0 <= a < c < i - b0 ==> !(#[trigger] body[a] == '.' && #[trigger] body[c] == '.'),
            any_digit == (exists|j: int| 0 <= j < i - b0 && is_digit(#[trigger] body[j])),
            seen_dot == (k < i - b0),
            !seen_dot ==> integer_part == digits_value(body.subrange(0, i - b0)),
            !seen_dot ==> fraction_part == 0 && fraction_digits == 0,
            seen_dot ==> integer_part == digits_value(body.subrange(0, k)),
            seen_dot ==> fraction_digits == (if i - b0 - k - 1 < 6 {
                i - b0 - k - 1
            } else {
                6
            }),
            seen_dot ==> fraction_part == digits_value(
                body.subrange(k + 1, k + 1 + fraction_digits),
            ),
            fraction_digits <= 6,
            fraction_part < pow10(fraction_digits as nat),
        decreases end - i,
    {
        let c = chars[i];
        let ghost p = (i - b0) as int;
        assert(body[p] == c);
        if c == '.' {
            if seen_dot {
                assert(!well_formed_number(body)) by {
                    assert(body[k] == '.' && body[p] == '.');
                }
                proof {
                    lemma_parse_rejects(s@, t, body);
                }
                return None;
            }
            seen_dot = true;
            assert(k == p);
            assert(body.subrange(k + 1, k + 1) =~= Seq::<char>::empty());
        } else if 48 <= c as u32 && c as u32 <= 57 {
            any_digit = true;
            let d = (c as u32) - 48;
            if seen_dot {
                if fraction_digits < 6 {
                    proof {
                        lemma_digits_value_range_extend(body, k + 1, k + 1 + fraction_digits);
                        lemma_pow10_small(fraction_digits as nat);
                        assert(pow10((fraction_digits + 1) as nat) == 10 * pow10(fraction_digits as nat));
                    }
                    fraction_part = fraction_part * 10 + d;
                    fraction_digits = fraction_digits + 1;
                }
            } else {
                proof {
                    lemma_digits_value_extend(body, p);
                }
                match integer_part.checked_mul(10) {
                    Some(m) => match m.checked_add(d) {
                        Some(v) => {
                            integer_part = v;
                        },
                        None => {
                            proof {
                                if well_formed_number(body) {
                                    lemma_digits_value_monotone(body, p + 1, k);
                                }
                                lemma_parse_rejects(s@, t, body);
                            }
                            return None;
                        },
                    },
                    None => {
                        proof {
                            if well_formed_number(body) {
                                lemma_digits_value_monotone(body, p + 1, k);
                            }
                            lemma_parse_rejects(s@, t, body);
                        }
                        return None;
                    },
                }
            }
        } else {
            assert(!well_formed_number(body)) by {
                assert(!(is_digit(body[p]) || body[p] == '.'));
            }
            proof {
                lemma_parse_rejects(s@, t, body);
            }
            return None;
        }
        i = i + 1;
    }
    if !any_digit {
        assert(!well_formed_number(body));
        proof {
            lemma_parse_rejects(s@, t, body);
        }
        return None;
    }
    proof {
        if !seen_dot {
            assert(k == body.len());
            assert(body.subrange(0, k) =~= body);
        }
        let frac = if k < body.len() {
            body.subrange(k + 1, body.len() as int)
        } else {
            Seq::<char>::empty()
        };
        let kept: nat = if frac.len() < 6 {
            frac.len()
        } else {
            6
        };
        assert(kept == fraction_digits);
        if seen_dot {
            assert(frac.subrange(0, kept as int) =~= body.subrange(k + 1, k + 1 + fraction_digits));
        } else {
            assert(frac.subrange(0, kept as int) =~= Seq::<char>::empty());
        }
        assert(well_formed_number(body));
    }
    Some(Decimal { negative, integer: integer_part, fraction: fraction_part, fraction_digits })
}

/// `core::str::from_utf8`: the bytes as a string slice when they are UTF-8.
/// Claimed: a slice comes back exactly when the bytes are valid UTF-8, and
/// it is made of those same bytes.
#[verifier::external_body]
fn str_from_utf8(bytes: &[u8]) -> (r: Option<&str>)
    ensures
        r is Some <==> valid_utf8(bytes@),
        r matches Some(s) ==> s.spec_bytes() == bytes@,
{
    core::str::from_utf8(bytes).ok()
}

/// The text of `bytes` when they are UTF-8.
pub fn utf8_text(bytes: &[u8]) -> (r: Option<&str>)
    ensures
        r is Some <==> valid_utf8(bytes@),
        r matches Some(s) ==> s@ == decode_utf8(bytes@),
{
    let r = str_from_utf8(bytes);
    proof {
        if let Some(s) = r {
            vstd::utf8::encode_utf8_decode_utf8(s@);
        }
    }
    r
}

/// Read the bytes `s` as a decimal number (see [`parse_f32`]); `None` when
/// they are not UTF-8.
pub fn parse_f32_bytes(s: &[u8]) -> (r: Option<Decimal>)
    ensures
        r == parse_number_bytes(s@),
{
    match utf8_text(s) {
        Some(text) => parse_f32(text),
        None => None,
    }
}

/// `needle` occurs in `haystack` starting at index `i`.
pub open spec fn occurs_at(haystack: Seq<u8>, needle: Seq<u8>, i: int) -> bool {
    0 <= i && i + needle.len() <= haystack.len() && haystack.subrange(i, i + needle.len())
        == needle
}

/// The first index at or after `i` where `needle` occurs in `haystack`.
pub open spec fn first_occurrence_from(haystack: Seq<u8>, needle: Seq<u8>, i: int) -> Option<int>
    decreases haystack.len() + 1 - i,
{
    if i < 0 || i + needle.len() > haystack.len() {
        None
    } else if occurs_at(haystack, needle, i) {
        Some(i)
    } else {
        first_occurrence_from(haystack, needle, i + 1)
    }
}

pub proof fn lemma_first_occurrence_from(haystack: Seq<u8>, needle: Seq<u8>, i: int)
    requires
        0 <= i,
    ensures
        match first_occurrence_from(haystack, needle, i) {
            Some(j) => i <= j && occurs_at(haystack, needle, j) && forall|m: int|
                i <= m < j ==> !occurs_at(haystack, needle, m),
            None => forall|m: int| i <= m ==> !occurs_at(haystack, needle, m),
        },
    decreases haystack.len() + 1 - i,
{
    if i + needle.len() > haystack.len() {
    } else if occurs_at(haystack, needle, i) {
    } else {
        lemma_first_occurrence_from(haystack, needle, i + 1);
    }
}

/// The first index where `needle` occurs in `haystack`.
fn find_subslice(haystack: &[u8], needle: &[u8]) -> (r: Option<usize>)
    ensures
        match r {
            Some(j) => first_occurrence_from(haystack@, needle@, 0) == Some(j as int) && j
                + needle@.len() <= haystack@.len(),
            None => first_occurrence_from(haystack@, needle@, 0) is None,
        },
{
    proof {
        lemma_first_occurrence_from(haystack@, needle@, 0);
    }
    if needle.len() > haystack.len() {
        return None;
    }
    let last = haystack.len() - needle.len();
    let mut i: usize = 0;
    loop
        invariant
            last == haystack.len() - needle.len(),
            needle.len() <= haystack.len(),
            0 <= i <= last,
            first_occurrence_from(haystack@, needle@, 0) == first_occurrence_from(
                haystack@,
                needle@,
                i as int,
            ),
        decreases last - i,
    {
        let window = &haystack[i..i + needle.len()];
        if crate::text::bytes_eq(window, needle) {
            return Some(i);
        }
        assert(!occurs_at(haystack@, needle@, i as int));
        assert(first_occurrence_from(haystack@, needle@, i as int) == first_occurrence_from(
            haystack@,
            needle@,
            i + 1,
        ));
        if i == last {
            assert(first_occurrence_from(haystack@, needle@, i + 1) is None);
            return None;
        }
        i = i + 1;
    }
}

/// Whether `needle` occurs anywhere in `haystack`.
pub fn line_contains(haystack: &[u8], needle: &[u8]) -> (r: bool)
    ensures
        r == exists|i: int| occurs_at(haystack@, needle@, i),
{
    proof {
        lemma_first_occurrence_from(haystack@, needle@, 0);
    }
    match find_subslice(haystack, needle) {
        Some(i) => {
            assert(occurs_at(haystack@, needle@, i as int));
            true
        },
        None => false,
    }
}

pub open spec fn is_number_byte(b: u8) -> bool {
    (48 <= b <= 57) || b == 46
}

/// The end of the run of digits and points that starts at `k`.
pub open spec fn number_run_end(line: Seq<u8>, k: int) -> int
    decreases line.len() - k,
{
    if 0 <= k < line.len() && is_number_byte(line[k]) {
        number_run_end(line, k + 1)
    } else {
        k
    }
}

/// The number written right after the first occurrence of `prefix` in
/// `line`: the run of digits and points that follows it, read as
/// [`parse_number_bytes`] says; `None` when `prefix` does not occur or no
/// digit or point follows it.
pub open spec fn value_after(line: Seq<u8>, prefix: Seq<u8>) -> Option<Decimal> {
    match first_occurrence_from(line, prefix, 0) {
        None => None,
        Some(i) => {
            let start = i + prefix.len();
            let end = number_run_end(line, start);
            if end == start {
                None
            } else {
                parse_number_bytes(line.subrange(start, end))
            }
        },
    }
}

/// The number that follows the first occurrence of `prefix` in `line`
/// (digits and points only).
pub fn extract_value_after(line: &[u8], prefix: &[u8]) -> (r: Option<Decimal>)
    ensures
        r == value_after(line@, prefix@),
{
    let n = line.len();
    let start = match find_subslice(line, prefix) {
        Some(i) => {
            assert(i + prefix@.len() <= n);
            i + prefix.len()
        },
        None => return None,
    };
    let mut end = start;
    while end < line.len() && ((48 <= line[end] && line[end] <= 57) || line[end] == 46)
        invariant
            start <= end <= line.len(),
            number_run_end(line@, start as int) == number_run_end(line@, end as int),
        decreases line.len() - end,
    {
        end = end + 1;
    }
    if end == start {
        return None;
    }
    parse_f32_bytes(&line[start..end])
}

pub open spec fn is_digit_byte(b: u8) -> bool {
    48 <= b <= 57
}

/// The number that a run of ASCII digits spells.
pub open spec fn digit_bytes_value(ds: Seq<u8>) -> nat
    decreases ds.len(),
{
    if ds.len() == 0 {
        0
    } else {
        digit_bytes_value(ds.drop_last()) * 10 + (ds.last() - 48) as nat
    }
}

/// The text after an optional leading `+`.
pub open spec fn unsigned_digits(s: Seq<u8>) -> Seq<u8> {
    if s.len() > 0 && s[0] == 43 {
        s.drop_first()
    } else {
        s
    }
}

/// What `str::parse::<u8>` gives for the text `s`: an optional `+`, then
/// one or more digits whose value is at most 255.
pub open spec fn u8_from_text(s: Seq<u8>) -> Option<u8> {
    let d = unsigned_digits(s);
    if d.len() > 0 && (forall|i: int| 0 <= i < d.len() ==> is_digit_byte(#[trigger] d[i]))
        && digit_bytes_value(d) <= 255 {
        Some(digit_bytes_value(d) as u8)
    } else {
        None
    }
}

proof fn lemma_digit_bytes_value_monotone(b: Seq<u8>, m: int, n: int)
    requires
        0 <= m <= n <= b.len(),
        forall|i: int| 0 <= i < b.len() ==> is_digit_byte(#[trigger] b[i]),
    ensures
        digit_bytes_value(b.subrange(0, m)) <= digit_bytes_value(b.subrange(0, n)),
    decreases n - m,
{
    if m < n {
        lemma_digit_bytes_value_monotone(b, m, n - 1);
        assert(b.subrange(0, n).drop_last() =~= b.subrange(0, n - 1));
    }
}

/// Read `s` as an unsigned byte value the way `str::parse::<u8>` does.
pub fn parse_u8(s: &[u8]) -> (r: Option<u8>)
    ensures
        r == u8_from_text(s@),
{
    let start: usize = if s.len() > 0 && s[0] == 43 {
        1
    } else {
        0
    };
    let ghost d = s@.subrange(start as int, s.len() as int);
    assert(d =~= unsigned_digits(s@));
    if start == s.len() {
        return None;
    }
    let mut value: u32 = 0;
    let mut i: usize = start;
    assert(d.subrange(0, 0) =~= Seq::<u8>::empty());
    while i < s.len()
        invariant
            start <= i <= s.len(),
            d == s@.subrange(start as int, s.len() as int),
            d == unsigned_digits(s@),
            d.len() > 0,
            forall|j: int| 0 <= j < i - start ==> is_digit_byte(#[trigger] d[j]),
            value == digit_bytes_value(d.subrange(0, i - start)),
            value <= 255,
        decreases s.len() - i,
    {
        let b = s[i];
        assert(d[i - start] == b);
        if b < 48 || b > 57 {
            assert(!is_digit_byte(d[i - start]));
            return None;
        }
        assert(d.subrange(0, i - start + 1).drop_last() =~= d.subrange(0, i - start));
        value = value * 10 + (b - 48) as u32;
        assert(value == digit_bytes_value(d.subrange(0, i - start + 1)));
        if value > 255 {
            proof {
                if forall|j: int| 0 <= j < d.len() ==> is_digit_byte(#[trigger] d[j]) {
                    lemma_digit_bytes_value_monotone(d, i - start + 1, d.len() as int);
                    assert(d.subrange(0, d.len() as int) =~= d);
                }
            }
            return None;
        }
        i = i + 1;
    }
    assert(d.subrange(0, d.len() as int) =~= d);
    Some(value as u8)
}

/// The number in the `k`-th of the `n` space-separated fields of `args`.
pub open spec fn number_field(args: Seq<u8>, n: nat, k: int) -> Option<Decimal> {
    let parts = crate::text::split_parts(args, 32, n);
    if 0 <= k < parts.len() {
        parse_number_bytes(parts[k])
    } else {
        None
    }
}

/// The number in the `k`-th field of `parts`, where there is one.
pub fn field_number(parts: &Vec<&[u8]>, k: usize) -> (r: Option<Decimal>)
    ensures
        r == (if k < parts@.len() {
            parse_number_bytes(parts@[k as int]@)
        } else {
            None
        }),
{
    if k < parts.len() {
        parse_f32_bytes(parts[k])
    } else {
        None
    }
}

impl Decimal {
    /// `10^fraction_digits`, computed in 32-bit arithmetic that wraps
    /// (the denominator of the fraction).
    pub fn divisor(&self) -> (d: u32)
        ensures
            d == (pow10(self.fraction_digits as nat) % 0x1_0000_0000) as u32,
    {
        let mut d: u32 = 1;
        let mut i: u32 = 0;
        while i < self.fraction_digits
            invariant
                0 <= i <= self.fraction_digits,
                d == (pow10(i as nat) % 0x1_0000_0000) as u32,
            decreases self.fraction_digits - i,
        {
            proof {
                vstd::arithmetic::div_mod::lemma_mul_mod_noop_left(
                    pow10(i as nat) as int,
                    10,
                    0x1_0000_0000,
                );
                assert(pow10((i + 1) as nat) == pow10(i as nat) * 10);
            }
            d = d.wrapping_mul(10);
            i = i + 1;
        }
        d
    }
}

// ── facts about reading numbers ─────────────────────────────────────

pub proof fn lemma_strip_leading_ws_prefix(pre: Seq<char>, x: Seq<char>)
    requires
        forall|i: int| 0 <= i < pre.len() ==> is_white_space(#[trigger] pre[i]),
    ensures
        strip_leading_ws(pre + x) == strip_leading_ws(x),
    decreases pre.len(),
{
    if pre.len() > 0 {
        assert((pre + x)[0] == pre[0]);
        assert((pre + x).drop_first() =~= pre.drop_first() + x);
        assert forall|i: int| 0 <= i < pre.drop_first().len() implies is_white_space(
            #[trigger] pre.drop_first()[i],
        ) by {
            assert(pre.drop_first()[i] == pre[i + 1]);
        }
        lemma_strip_leading_ws_prefix(pre.drop_first(), x);
    } else {
        assert(pre + x =~= x);
    }
}

pub proof fn lemma_strip_trailing_ws_suffix(x: Seq<char>, post: Seq<char>)
    requires
        forall|i: int| 0 <= i < post.len() ==> is_white_space(#[trigger] post[i]),
    ensures
        strip_trailing_ws(x + post) == strip_trailing_ws(x),
    decreases post.len(),
{
    if post.len() > 0 {
        assert((x + post).last() == post.last());
        assert(is_white_space(post[post.len() - 1]));
        assert((x + post).drop_last() =~= x + post.drop_last());
        assert forall|i: int| 0 <= i < post.drop_last().len() implies is_white_space(
            #[trigger] post.drop_last()[i],
        ) by {
            assert(post.drop_last()[i] == post[i]);
        }
        lemma_strip_trailing_ws_suffix(x, post.drop_last());
    } else {
        assert(x + post =~= x);
    }
}

proof fn lemma_strip_leading_ws_append(s: Seq<char>, post: Seq<char>)
    ensures
        strip_leading_ws(s).len() > 0 ==> strip_leading_ws(s + post) == strip_leading_ws(s)
            + post,
        strip_leading_ws(s).len() == 0 ==> strip_leading_ws(s + post) == strip_leading_ws(post),
    decreases s.len(),
{
    if s.len() == 0 {
        assert(s + post =~= post);
    } else {
        assert((s + post)[0] == s[0]);
        if is_white_space(s[0]) {
            assert((s + post).drop_first() =~= s.drop_first() + post);
            lemma_strip_leading_ws_append(s.drop_first(), post);
        }
    }
}

/// White space around a number does not change how it reads.
pub proof fn lemma_trim_ws_surrounded(pre: Seq<char>, s: Seq<char>, post: Seq<char>)
    requires
        forall|i: int| 0 <= i < pre.len() ==> is_white_space(#[trigger] pre[i]),
        forall|i: int| 0 <= i < post.len() ==> is_white_space(#[trigger] post[i]),
    ensures
        trim_ws(pre + s + post) == trim_ws(s),
{
    assert(pre + s + post =~= pre + (s + post));
    lemma_strip_leading_ws_prefix(pre, s + post);
    lemma_strip_leading_ws_append(s, post);
    if strip_leading_ws(s).len() > 0 {
        lemma_strip_trailing_ws_suffix(strip_leading_ws(s), post);
    } else {
        lemma_strip_leading_ws_prefix(post, Seq::<char>::empty());
        assert(post + Seq::<char>::empty() =~= post);
        assert(strip_leading_ws(s) =~= Seq::<char>::empty());
    }
}

proof fn lemma_strip_trailing_ws_cons(c: char, s: Seq<char>)
    requires
        !is_white_space(c),
    ensures
        strip_trailing_ws(seq![c] + s) == seq![c] + strip_trailing_ws(s),
    decreases s.len(),
{
    if s.len() == 0 {
        assert(seq![c] + s =~= seq![c]);
        assert(seq![c] + strip_trailing_ws(s) =~= seq![c]);
    } else {
        assert((seq![c] + s).last() == s.last());
        if is_white_space(s.last()) {
            assert((seq![c] + s).drop_last() =~= seq![c] + s.drop_last());
            lemma_strip_trailing_ws_cons(c, s.drop_last());
        }
    }
}

proof fn lemma_strip_trailing_ws_is_prefix(s: Seq<char>)
    ensures
        strip_trailing_ws(s).len() <= s.len(),
        strip_trailing_ws(s) == s.subrange(0, strip_trailing_ws(s).len() as int),
    decreases s.len(),
{
    if s.len() > 0 && is_white_space(s.last()) {
        lemma_strip_trailing_ws_is_prefix(s.drop_last());
        assert(s.drop_last().subrange(0, strip_trailing_ws(s).len() as int) =~= s.subrange(
            0,
            strip_trailing_ws(s).len() as int,
        ));
    } else {
        assert(s.subrange(0, s.len() as int) =~= s);
    }
}

/// The number `s` reads as, made negative.
pub open spec fn negated(d: Option<Decimal>) -> Option<Decimal> {
    match d {
        Some(v) => Some(Decimal { negative: true, ..v }),
        None => None,
    }
}

/// A leading `-` makes a number negative and changes nothing else.
pub proof fn lemma_minus_negates(s: Seq<char>)
    requires
        s.len() == 0 || (!is_white_space(s[0]) && s[0] != '-' && s[0] != '+'),
    ensures
        parse_number_text(seq!['-'] + s) == negated(parse_number_text(s)),
{
    let m = seq!['-'] + s;
    assert(!is_white_space('-'));
    assert(m[0] == '-');
    assert(strip_leading_ws(m) == m);
    assert(strip_leading_ws(s) == s);
    lemma_strip_trailing_ws_cons('-', s);
    lemma_strip_trailing_ws_is_prefix(s);
    let t = strip_trailing_ws(s);
    assert(trim_ws(m) == seq!['-'] + t);
    assert(trim_ws(s) == t);
    assert(unsigned_part(seq!['-'] + t) =~= t);
    if t.len() > 0 {
        assert(t[0] == s[0]);
        assert(unsigned_part(t) == t);
    } else {
        assert(!well_formed_number(t));
    }
}

pub proof fn lemma_decimal_digits_are_digits(v: nat)
    ensures
        decimal_digits(v).len() >= 1,
        forall|i: int| 0 <= i < decimal_digits(v).len() ==> is_digit_byte(#[trigger] decimal_digits(v)[i]),
        digit_bytes_value(decimal_digits(v)) == v,
    decreases v,
{
    if v >= 10 {
        lemma_decimal_digits_are_digits(v / 10);
        let d = decimal_digits(v);
        assert(d.drop_last() =~= decimal_digits(v / 10));
        assert(d.last() == ((v % 10) + 48) as u8);
        vstd::arithmetic::div_mod::lemma_fundamental_div_mod(v as int, 10);
        assert(digit_bytes_value(d) == digit_bytes_value(d.drop_last()) * 10 + (d.last() - 48) as nat);
        assert(digit_bytes_value(d) == (v / 10) * 10 + v % 10);
        assert forall|i: int| 0 <= i < d.len() implies is_digit_byte(#[trigger] d[i]) by {
            if i < d.len() - 1 {
                assert(d[i] == decimal_digits(v / 10)[i]);
            }
        }
    } else {
        let d = decimal_digits(v);
        assert(d =~= seq![(v + 48) as u8]);
        assert(d.drop_last() =~= Seq::<u8>::empty());
        assert(digit_bytes_value(Seq::<u8>::empty()) == 0);
        assert(d.last() == (v + 48) as u8);
        assert(digit_bytes_value(d) == digit_bytes_value(d.drop_last()) * 10 + (d.last() - 48) as nat);
    }
}

/// The characters of ASCII bytes.
pub open spec fn chars_of_bytes(b: Seq<u8>) -> Seq<char> {
    Seq::new(b.len(), |i: int| b[i] as char)
}

proof fn lemma_digits_value_of_bytes(b: Seq<u8>)
    requires
        forall|i: int| 0 <= i < b.len() ==> is_digit_byte(#[trigger] b[i]),
    ensures
        digits_value(chars_of_bytes(b)) == digit_bytes_value(b),
    decreases b.len(),
{
    if b.len() > 0 {
        assert(chars_of_bytes(b).drop_last() =~= chars_of_bytes(b.drop_last()));
        assert forall|i: int| 0 <= i < b.drop_last().len() implies is_digit_byte(
            #[trigger] b.drop_last()[i],
        ) by {
            assert(b.drop_last()[i] == b[i]);
        }
        lemma_digits_value_of_bytes(b.drop_last());
        assert(is_digit_byte(b[b.len() - 1]));
    }
}

/// Decimal text written for a `u32` reads back as that number.
pub proof fn lemma_decimal_reads_back(v: u32)
    ensures
        parse_number_bytes(decimal_digits(v as nat)) == Some(
            Decimal { negative: false, integer: v, fraction: 0, fraction_digits: 0 },
        ),
{
    let b = decimal_digits(v as nat);
    lemma_decimal_digits_are_digits(v as nat);
    let cs = chars_of_bytes(b);
    assert(vstd::utf8::is_ascii_chars(cs));
    vstd::utf8::is_ascii_chars_encode_utf8(cs);
    assert(vstd::utf8::encode_utf8(cs) =~= b);
    vstd::utf8::encode_utf8_valid_utf8(cs);
    vstd::utf8::encode_utf8_decode_utf8(cs);
    assert(decode_utf8(b) == cs);
    assert(!is_white_space(cs[0]));
    assert(strip_leading_ws(cs) == cs);
    assert(!is_white_space(cs.last()));
    assert(strip_trailing_ws(cs) == cs);
    assert(trim_ws(cs) == cs);
    assert(unsigned_part(cs) == cs);
    lemma_leading_non_dot(cs);
    let k = leading_non_dot(cs);
    if k < cs.len() {
        assert(cs[k as int] == '.');
        assert(is_digit_byte(b[k as int]));
    }
    assert(k == cs.len());
    assert(cs.subrange(0, k as int) =~= cs);
    lemma_digits_value_of_bytes(b);
    assert(forall|i: int| 0 <= i < cs.len() ==> is_digit(#[trigger] cs[i]));
    assert(is_digit(cs[0]));
    assert(well_formed_number(cs));
    assert(Seq::<char>::empty().subrange(0, 0) =~= Seq::<char>::empty());
}

// ── the text of a decimal ────────────────────────────────────────────

/// `v` in decimal, with leading zeros up to `width` digits.
pub open spec fn padded_digits(v: nat, width: nat) -> Seq<u8> {
    let d = decimal_digits(v);
    if d.len() < width {
        Seq::new((width - d.len()) as nat, |i: int| 48u8) + d
    } else {
        d
    }
}

/// The fraction of `d` as text: a point and its fraction digits, or
/// nothing when it has none.
pub open spec fn fraction_text(d: Decimal) -> Seq<u8> {
    if d.fraction_digits > 0 {
        seq![46u8] + padded_digits(d.fraction as nat, d.fraction_digits as nat)
    } else {
        Seq::<u8>::empty()
    }
}

/// The text of `d`: a `-` when it is negative, its integer part, then its
/// fraction.
pub open spec fn decimal_text(d: Decimal) -> Seq<u8> {
    (if d.negative {
        seq![45u8]
    } else {
        Seq::<u8>::empty()
    }) + decimal_digits(d.integer as nat) + fraction_text(d)
}

/// A decimal that its text spells: at most six fraction digits, and a
/// fraction below its denominator.
pub open spec fn is_canonical(d: Decimal) -> bool {
    d.fraction_digits <= 6 && d.fraction < pow10(d.fraction_digits as nat)
}

proof fn lemma_zeros_value(z: Seq<u8>)
    requires
        forall|i: int| 0 <= i < z.len() ==> #[trigger] z[i] == 48,
    ensures
        digit_bytes_value(z) == 0,
    decreases z.len(),
{
    if z.len() > 0 {
        assert forall|i: int| 0 <= i < z.drop_last().len() implies #[trigger] z.drop_last()[i]
            == 48 by {
            assert(z.drop_last()[i] == z[i]);
        }
        lemma_zeros_value(z.drop_last());
        assert(z.last() == 48);
    }
}

/// Leading zeros do not change the value of digits.
proof fn lemma_zero_prefix_value(z: Seq<u8>, d: Seq<u8>)
    requires
        forall|i: int| 0 <= i < z.len() ==> #[trigger] z[i] == 48,
    ensures
        digit_bytes_value(z + d) == digit_bytes_value(d),
    decreases d.len(),
{
    if d.len() == 0 {
        assert(z + d =~= z);
        lemma_zeros_value(z);
    } else {
        assert((z + d).drop_last() =~= z + d.drop_last());
        assert((z + d).last() == d.last());
        lemma_zero_prefix_value(z, d.drop_last());
    }
}

/// A number below `10^n` has at most `n` digits (`n` at least one).
proof fn lemma_digits_len_bound(v: nat, n: nat)
    requires
        n >= 1,
        v < pow10(n),
    ensures
        decimal_digits(v).len() <= n,
    decreases v,
{
    if v >= 10 {
        vstd::arithmetic::div_mod::lemma_fundamental_div_mod(v as int, 10);
        if n == 1 {
            assert(pow10(1) == 10 * pow10(0));
        } else {
            assert(pow10(n) == 10 * pow10((n - 1) as nat));
            lemma_digits_len_bound(v / 10, (n - 1) as nat);
        }
    }
}

/// Padded digits: `width` of them when the number fits, all digits, and
/// their value is the number.
proof fn lemma_padded_digits(v: nat, width: nat)
    requires
        width >= 1,
        v < pow10(width),
    ensures
        padded_digits(v, width).len() == width,
        forall|i: int|
            0 <= i < width ==> is_digit_byte(#[trigger] padded_digits(v, width)[i]),
        digit_bytes_value(padded_digits(v, width)) == v,
{
    lemma_digits_len_bound(v, width);
    lemma_decimal_digits_are_digits(v);
    let d = decimal_digits(v);
    if d.len() < width {
        let z = Seq::new((width - d.len()) as nat, |i: int| 48u8);
        lemma_zero_prefix_value(z, d);
        assert forall|i: int| 0 <= i < width implies is_digit_byte(
            #[trigger] padded_digits(v, width)[i],
        ) by {
            if i >= z.len() {
                assert(padded_digits(v, width)[i] == d[i - z.len()]);
            }
        }
    }
}

/// ASCII bytes are UTF-8 and decode to their own characters.
pub proof fn lemma_ascii_decodes(b: Seq<u8>)
    requires
        forall|i: int| 0 <= i < b.len() ==> #[trigger] b[i] < 128,
    ensures
        valid_utf8(b),
        decode_utf8(b) == chars_of_bytes(b),
{
    let cs = chars_of_bytes(b);
    assert(vstd::utf8::is_ascii_chars(cs));
    vstd::utf8::is_ascii_chars_encode_utf8(cs);
    assert(vstd::utf8::encode_utf8(cs) =~= b);
    vstd::utf8::encode_utf8_valid_utf8(cs);
    vstd::utf8::encode_utf8_decode_utf8(cs);
}

/// Characters before the first point, counted where it is known.
pub(crate) proof fn lemma_leading_non_dot_at(b: Seq<char>, n: int)
    requires
        0 <= n <= b.len(),
        forall|j: int| 0 <= j < n ==> #[trigger] b[j] != '.',
        n == b.len() || b[n] == '.',
    ensures
        leading_non_dot(b) == n,
    decreases n,
{
    if n > 0 {
        assert forall|j: int| 0 <= j < n - 1 implies #[trigger] b.drop_first()[j] != '.' by {
            assert(b.drop_first()[j] == b[j + 1]);
        }
        lemma_leading_non_dot_at(b.drop_first(), n - 1);
    } else if b.len() > 0 {
        assert(b[0] == '.');
    }
}

/// The text of `d` after its sign.
pub open spec fn unsigned_text(d: Decimal) -> Seq<u8> {
    decimal_digits(d.integer as nat) + fraction_text(d)
}

/// What the text of a canonical decimal is made of: digits, with one point
/// right after the integer digits when there is a fraction.
pub(crate) proof fn lemma_text_shape(d: Decimal)
    requires
        is_canonical(d),
    ensures
        ({
            let r = unsigned_text(d);
            let id = decimal_digits(d.integer as nat);
            let pd = padded_digits(d.fraction as nat, d.fraction_digits as nat);
            &&& decimal_text(d) == (if d.negative {
                seq![45u8]
            } else {
                Seq::<u8>::empty()
            }) + r
            &&& forall|i: int|
                0 <= i < r.len() ==> is_digit_byte(#[trigger] r[i]) || (r[i] == 46 && i
                    == id.len())
            &&& r.len() > 0 && is_digit_byte(r[0]) && is_digit_byte(r.last())
            &&& forall|i: int| 0 <= i < id.len() ==> is_digit_byte(#[trigger] id[i])
            &&& digit_bytes_value(id) == d.integer
            &&& d.fraction_digits > 0 ==> r.subrange(id.len() as int + 1, r.len() as int) == pd
                && pd.len() == d.fraction_digits && digit_bytes_value(pd) == d.fraction && r[id.len() as int] == 46
                && forall|i: int| 0 <= i < pd.len() ==> is_digit_byte(#[trigger] pd[i])
            &&& d.fraction_digits == 0 ==> r == id
        }),
{
    let id = decimal_digits(d.integer as nat);
    let ft = fraction_text(d);
    let fd = d.fraction_digits as nat;
    let pd = padded_digits(d.fraction as nat, fd);
    let r = unsigned_text(d);
    lemma_decimal_digits_are_digits(d.integer as nat);
    if fd > 0 {
        lemma_padded_digits(d.fraction as nat, fd);
        assert(r.subrange(id.len() as int + 1, r.len() as int) =~= pd);
        assert(r.last() == pd.last());
    } else {
        assert(ft =~= Seq::<u8>::empty());
        assert(r =~= id);
    }
    assert(decimal_text(d) =~= (if d.negative {
        seq![45u8]
    } else {
        Seq::<u8>::empty()
    }) + r);
    assert forall|i: int| 0 <= i < r.len() implies is_digit_byte(#[trigger] r[i]) || (r[i] == 46
        && i == id.len()) by {
        if i >= id.len() {
            assert(r[i] == ft[i - id.len()]);
            if i > id.len() {
                assert(ft[i - id.len()] == pd[i - id.len() - 1]);
            }
        }
    }
}

/// The text of a canonical decimal as characters: UTF-8, with nothing to
/// trim, and its sign in front of the characters of [`unsigned_text`].
proof fn lemma_text_chars(d: Decimal)
    requires
        is_canonical(d),
    ensures
        valid_utf8(decimal_text(d)),
        decode_utf8(decimal_text(d)) == chars_of_bytes(decimal_text(d)),
        trim_ws(chars_of_bytes(decimal_text(d))) == chars_of_bytes(decimal_text(d)),
        unsigned_part(chars_of_bytes(decimal_text(d))) == chars_of_bytes(unsigned_text(d)),
        chars_of_bytes(decimal_text(d)).len() > 0,
        chars_of_bytes(decimal_text(d))[0] == '-' <==> d.negative,
{
    lemma_text_shape(d);
    let rest = unsigned_text(d);
    let sign = if d.negative {
        seq![45u8]
    } else {
        Seq::<u8>::empty()
    };
    let b = decimal_text(d);
    assert forall|i: int| 0 <= i < b.len() implies #[trigger] b[i] < 128 by {
        if i >= sign.len() {
            assert(b[i] == rest[i - sign.len()]);
            assert(is_digit_byte(rest[i - sign.len()]) || rest[i - sign.len()] == 46);
        }
    }
    lemma_ascii_decodes(b);
    let cs = chars_of_bytes(b);
    let body = chars_of_bytes(rest);
    assert(b.last() == rest.last());
    assert(!is_white_space(cs[0]));
    assert(strip_leading_ws(cs) == cs);
    assert(!is_white_space(cs.last()));
    assert(strip_trailing_ws(cs) == cs);
    if d.negative {
        assert(cs.drop_first() =~= body);
    } else {
        assert(cs =~= body);
    }
}

/// The characters after the sign read as the integer and fraction of `d`.
proof fn lemma_unsigned_chars(d: Decimal)
    requires
        is_canonical(d),
    ensures
        ({
            let body = chars_of_bytes(unsigned_text(d));
            let k = leading_non_dot(body) as int;
            let frac = if k < body.len() {
                body.subrange(k + 1, body.len() as int)
            } else {
                Seq::<char>::empty()
            };
            let kept: nat = if frac.len() < 6 {
                frac.len()
            } else {
                6
            };
            &&& well_formed_number(body)
            &&& digits_value(body.subrange(0, k)) == d.integer
            &&& kept == d.fraction_digits
            &&& digits_value(frac.subrange(0, kept as int)) == d.fraction
        }),
{
    lemma_text_shape(d);
    let id = decimal_digits(d.integer as nat);
    let fd = d.fraction_digits as nat;
    let pd = padded_digits(d.fraction as nat, fd);
    let rest = unsigned_text(d);
    let body = chars_of_bytes(rest);
    let k = id.len() as int;
    assert forall|j: int| 0 <= j < k implies #[trigger] body[j] != '.' by {
        assert(is_digit_byte(rest[j]));
    }
    lemma_leading_non_dot_at(body, k);
    assert(body.subrange(0, k) =~= chars_of_bytes(id));
    lemma_digits_value_of_bytes(id);
    if fd > 0 {
        assert(body.subrange(k + 1, body.len() as int) =~= chars_of_bytes(pd));
        assert(chars_of_bytes(pd).subrange(0, fd as int) =~= chars_of_bytes(pd));
        lemma_digits_value_of_bytes(pd);
    } else {
        assert(Seq::<char>::empty().subrange(0, 0) =~= Seq::<char>::empty());
    }
    assert forall|i: int| 0 <= i < body.len() implies is_digit(#[trigger] body[i]) || body[i]
        == '.' by {
        assert(is_digit_byte(rest[i]) || rest[i] == 46);
    }
    assert forall|i: int, j: int| 0 <= i < j < body.len() implies !(#[trigger] body[i] == '.'
        && #[trigger] body[j] == '.') by {
        assert(is_digit_byte(rest[i]) || (rest[i] == 46 && i == k));
        assert(is_digit_byte(rest[j]) || (rest[j] == 46 && j == k));
    }
    assert(is_digit(body[0]));
}

/// The text of a canonical decimal reads back as that decimal.
pub proof fn lemma_decimal_text_reads_back(d: Decimal)
    requires
        is_canonical(d),
    ensures
        parse_number_bytes(decimal_text(d)) == Some(d),
{
    lemma_text_chars(d);
    lemma_unsigned_chars(d);
}

} // verus!
