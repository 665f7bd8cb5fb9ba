//! A minimal rotctld responder that keeps the commanded position in memory
//! (no motors): line collection, command dispatch, its own lenient number
//! reader and decimal output.

use vstd::prelude::*;

use crate::tasks::rotctld::args_after;
use crate::text::{
    decimal_digits, first_index_of, has_prefix, is_lit, lemma_first_index_of,
    lit, literal, position_of, push_all, push_decimal, starts_with_lit,
};
use crate::util::{digit_bytes_value, Decimal};

verus! {

/// Longest line the responder keeps; further bytes of a longer line are dropped.
pub const STUB_LINE_CAPACITY: usize = 256;

/// Collects one connection's bytes into newline-terminated lines.
pub struct LineCollector {
    buf: Vec<u8>,
}

/// The bytes held after `byte` arrives at a collector holding `buf`: a
/// newline empties it, another byte is kept while there is room.
pub open spec fn collected_after(buf: Seq<u8>, byte: u8) -> Seq<u8> {
    if byte == 10 {
        Seq::<u8>::empty()
    } else if buf.len() < STUB_LINE_CAPACITY {
        buf.push(byte)
    } else {
        buf
    }
}

/// The bytes held after `bytes` arrive one by one at a collector holding `buf`.
pub open spec fn collected_after_all(buf: Seq<u8>, bytes: Seq<u8>) -> Seq<u8>
    decreases bytes.len(),
{
    if bytes.len() == 0 {
        buf
    } else {
        collected_after(collected_after_all(buf, bytes.drop_last()), bytes.last())
    }
}

impl View for LineCollector {
    type V = Seq<u8>;

    closed spec fn view(&self) -> Seq<u8> {
        self.buf@
    }
}

impl LineCollector {
    pub fn new() -> (r: Self)
        ensures
            r@ == Seq::<u8>::empty(),
    {
        LineCollector { buf: Vec::new() }
    }

    /// Take in one received byte; a newline hands back the completed line.
    pub fn push(&mut self, byte: u8) -> (r: Option<Vec<u8>>)
        ensures
            final(self)@ == collected_after(old(self)@, byte),
            byte == 10 ==> (r matches Some(l) && l@ == old(self)@) && final(self)@
                == Seq::<u8>::empty(),
            byte != 10 ==> r is None,
            byte != 10 && old(self)@.len() < STUB_LINE_CAPACITY ==> final(self)@ == old(
                self,
            )@.push(byte),
            byte != 10 && old(self)@.len() >= STUB_LINE_CAPACITY ==> final(self)@ == old(self)@,
    {
        if byte == 10 {
            let mut line = Vec::new();
            std::mem::swap(&mut line, &mut self.buf);
            Some(line)
        } else {
            if self.buf.len() < STUB_LINE_CAPACITY {
                self.buf.push(byte);
            }
            None
        }
    }
}

pub open spec fn is_blank(b: u8) -> bool {
    b == 32 || b == 13 || b == 9
}

pub open spec fn strip_leading_blanks(s: Seq<u8>) -> Seq<u8>
    decreases s.len(),
{
    if s.len() > 0 && is_blank(s[0]) {
        strip_leading_blanks(s.drop_first())
    } else {
        s
    }
}

pub open spec fn strip_trailing_blanks(s: Seq<u8>) -> Seq<u8>
    decreases s.len(),
{
    if s.len() > 0 && is_blank(s.last()) {
        strip_trailing_blanks(s.drop_last())
    } else {
        s
    }
}

/// `s` without leading and trailing spaces, carriage returns and tabs.
pub open spec fn trim_blanks(s: Seq<u8>) -> Seq<u8> {
    strip_trailing_blanks(strip_leading_blanks(s))
}

/// Remove leading and trailing spaces, carriage returns and tabs.
pub fn trim(s: &[u8]) -> (r: &[u8])
    ensures
        r@ == trim_blanks(s@),
{
    let n = s.len();
    let mut start: usize = 0;
    assert(s@.subrange(0, n as int) =~= s@);
    while start < n && (s[start] == 32 || s[start] == 13 || s[start] == 9)
        invariant
            n == s.len(),
            0 <= start <= n,
            strip_leading_blanks(s@) == strip_leading_blanks(s@.subrange(start as int, n as int)),
        decreases n - start,
    {
        assert(s@.subrange(start as int, n as int).drop_first() =~= s@.subrange(
            start + 1,
            n as int,
        ));
        start = start + 1;
    }
    let mut end: usize = n;
    while end > start && (s[end - 1] == 32 || s[end - 1] == 13 || s[end - 1] == 9)
        invariant
            n == s.len(),
            0 <= start <= end <= n,
            strip_leading_blanks(s@) == s@.subrange(start as int, n as int),
            trim_blanks(s@) == strip_trailing_blanks(s@.subrange(start as int, end as int)),
        decreases end - start,
    {
        assert(s@.subrange(start as int, end as int).drop_last() =~= s@.subrange(
            start as int,
            end - 1,
        ));
        end = end - 1;
    }
    &s[start..end]
}

/// The digits of `s`, points left out.
pub open spec fn digits_only(s: Seq<u8>) -> Seq<u8>
    decreases s.len(),
{
    if s.len() == 0 {
        s
    } else if s.last() == 46 {
        digits_only(s.drop_last())
    } else {
        digits_only(s.drop_last()).push(s.last())
    }
}

pub open spec fn word_mod(v: nat) -> u32 {
    (v % 0x1_0000_0000) as u32
}

/// The text after an optional leading `-`.
pub open spec fn minus_stripped(s: Seq<u8>) -> Seq<u8> {
    if s.len() > 0 && s[0] == 45 {
        s.drop_first()
    } else {
        s
    }
}

/// The responder's lenient reading of a number: an optional `-`, then only
/// digits and points.  Digits before the first point make the integer part,
/// every digit after it the fraction (further points are skipped).  The
/// arithmetic wraps at 32 bits, as the release build of the firmware does.
pub open spec fn lenient_number(s: Seq<u8>) -> Option<Decimal> {
    if s.len() == 0 {
        None
    } else {
        let b = minus_stripped(s);
        if forall|i: int| 0 <= i < b.len() ==> (48 <= #[trigger] b[i] <= 57) || b[i] == 46 {
            let ip = match first_index_of(b, 46) {
                Some(k) => b.subrange(0, k),
                None => b,
            };
            let fp = match first_index_of(b, 46) {
                Some(k) => digits_only(b.subrange(k + 1, b.len() as int)),
                None => Seq::<u8>::empty(),
            };
            Some(
                Decimal {
                    negative: s[0] == 45,
                    integer: word_mod(digit_bytes_value(ip)),
                    fraction: word_mod(digit_bytes_value(fp)),
                    fraction_digits: word_mod(fp.len()),
                },
            )
        } else {
            None
        }
    }
}

proof fn lemma_wrap_digit(a: nat, d: nat)
    requires
        d < 10,
    ensures
        word_mod(a * 10 + d) == vstd::wrapping::u32_specs::wrapping_add(
            vstd::wrapping::u32_specs::wrapping_mul(word_mod(a), 10),
            d as u32,
        ),
{
    let m: int = 0x1_0000_0000;
    vstd::arithmetic::div_mod::lemma_mul_mod_noop_left(a as int, 10, m);
    vstd::arithmetic::div_mod::lemma_add_mod_noop((a * 10) as int, d as int, m);
    vstd::arithmetic::div_mod::lemma_small_mod(d, m as nat);
    let x = ((a % (m as nat)) * 10) % (m as nat);
    vstd::arithmetic::div_mod::lemma_mod_bound(((a % (m as nat)) * 10) as int, m);
    if x + d >= m {
        vstd::arithmetic::div_mod::lemma_mod_add_multiples_vanish((x + d - m) as int, m);
        vstd::arithmetic::div_mod::lemma_small_mod((x + d - m) as nat, m as nat);
    } else {
        vstd::arithmetic::div_mod::lemma_small_mod((x + d) as nat, m as nat);
    }
}

proof fn lemma_wrap_one(a: nat)
    ensures
        word_mod(a + 1) == vstd::wrapping::u32_specs::wrapping_add(word_mod(a), 1),
{
    let m: int = 0x1_0000_0000;
    vstd::arithmetic::div_mod::lemma_add_mod_noop(a as int, 1, m);
    vstd::arithmetic::div_mod::lemma_mod_bound(a as int, m);
    let x = a % (m as nat);
    if x + 1 >= m {
        vstd::arithmetic::div_mod::lemma_mod_self_0(m);
    } else {
        vstd::arithmetic::div_mod::lemma_small_mod((x + 1) as nat, m as nat);
    }
}

/// The responder's lenient number reader (see [`lenient_number`]).
pub fn parse_f32(s: &[u8]) -> (r: Option<Decimal>)
    ensures
        r == lenient_number(s@),
{
    if s.len() == 0 {
        return None;
    }
    let n = s.len();
    let neg = s[0] == 45;
    let b0: usize = if neg {
        1
    } else {
        0
    };
    let ghost b = s@.subrange(b0 as int, n as int);
    assert(b =~= minus_stripped(s@));
    proof {
        lemma_first_index_of(b, 46);
    }
    let ghost k: int = match first_index_of(b, 46) {
        Some(k) => k,
        None => b.len() as int,
    };
    let mut integer: u32 = 0;
    let mut frac: u32 = 0;
    let mut frac_digits: u32 = 0;
    let mut in_frac = false;
    let mut i: usize = b0;
    assert(b.subrange(0, 0) =~= Seq::<u8>::empty());
    while i < n
        invariant
            b0 <= i <= n == s.len(),
            b == s@.subrange(b0 as int, n as int),
            b == minus_stripped(s@),
            0 <= k <= b.len(),
            forall|j: int| 0 <= j < k ==> b[j] != 46,
            k < b.len() ==> b[k] == 46,
            first_index_of(b, 46) is Some <==> k < b.len(),
            forall|j: int| 0 <= j < i - b0 ==> (48 <= #[trigger] b[j] <= 57) || b[j] == 46,
            in_frac == (k < i - b0),
            !in_frac ==> integer == word_mod(digit_bytes_value(b.subrange(0, i - b0))),
            !in_frac ==> frac == 0 && frac_digits == 0,
            in_frac ==> integer == word_mod(digit_bytes_value(b.subrange(0, k))),
            in_frac ==> frac == word_mod(digit_bytes_value(digits_only(b.subrange(k + 1, i - b0)))),
            in_frac ==> frac_digits == word_mod(digits_only(b.subrange(k + 1, i - b0)).len()),
        decreases n - i,
    {
        let c = s[i];
        let ghost p = (i - b0) as int;
        assert(b[p] == c);
        if c == 46 {
            if !in_frac {
                assert(k == p);
                assert(b.subrange(k + 1, k + 1) =~= Seq::<u8>::empty());
            } else {
                assert(b.subrange(k + 1, p + 1).drop_last() =~= b.subrange(k + 1, p));
            }
            in_frac = true;
        } else if 48 <= c && c <= 57 {
            let d = (c - 48) as u32;
            if in_frac {
                let ghost old_digits = digits_only(b.subrange(k + 1, p));
                assert(b.subrange(k + 1, p + 1).drop_last() =~= b.subrange(k + 1, p));
                assert(digits_only(b.subrange(k + 1, p + 1)) == old_digits.push(c));
                assert(old_digits.push(c).drop_last() =~= old_digits);
                proof {
                    lemma_wrap_digit(digit_bytes_value(old_digits), d as nat);
                    lemma_wrap_one(old_digits.len());
                }
                frac = frac.wrapping_mul(10).wrapping_add(d);
                frac_digits = frac_digits.wrapping_add(1);
            } else {
                assert(b.subrange(0, p + 1).drop_last() =~= b.subrange(0, p));
                proof {
                    lemma_wrap_digit(digit_bytes_value(b.subrange(0, p)), d as nat);
                }
                integer = integer.wrapping_mul(10).wrapping_add(d);
            }
        } else {
            assert(!((48 <= b[p] <= 57) || b[p] == 46));
            return None;
        }
        i = i + 1;
    }
    proof {
        if !in_frac {
            assert(b.subrange(0, b.len() as int) =~= b);
            assert(k == b.len());
        } else {
            assert(b.subrange(k + 1, b.len() as int) == b.subrange(k + 1, (i - b0) as int));
        }
    }
    Some(Decimal { negative: neg, integer, fraction: frac, fraction_digits: frac_digits })
}

/// `az el`: two lenient numbers separated by the first space.
pub open spec fn two_numbers(input: Seq<u8>) -> Option<(Decimal, Decimal)> {
    let t = trim_blanks(input);
    match first_index_of(t, 32) {
        None => None,
        Some(sp) => match (
            lenient_number(t.subrange(0, sp)),
            lenient_number(trim_blanks(t.subrange(sp + 1, t.len() as int))),
        ) {
            (Some(az), Some(el)) => Some((az, el)),
            _ => None,
        },
    }
}

/// Read `az el` from the arguments of a set-position command.
pub fn parse_two_floats(input: &[u8]) -> (r: Option<(Decimal, Decimal)>)
    ensures
        r == two_numbers(input@),
{
    let t = trim(input);
    let n = t.len();
    let space = match position_of(t, 32) {
        Some(i) => i,
        None => return None,
    };
    proof {
        lemma_first_index_of(t@, 32);
    }
    assert(space < n);
    let az = match parse_f32(&t[0..space]) {
        Some(v) => v,
        None => return None,
    };
    let el = match parse_f32(trim(&t[space + 1..n])) {
        Some(v) => v,
        None => return None,
    };
    Some((az, el))
}

/// What the responder does with a line.
#[derive(Clone, Copy, Debug, PartialEq, Eq, Structural)]
pub enum StubReply {
    /// Report the stored position (`<az>\n<el>\n`, one decimal each).
    Position,
    /// `RPRT 0` to a stop.
    Stopped,
    /// `Model: W5500 Rotator`.
    Info,
    /// Close the connection.
    Close,
    /// The fixed `\dump_state` block.
    StateDump,
    /// Store this position and answer `RPRT 0`.
    PositionSet(Decimal, Decimal),
    /// `RPRT -1`.
    Rejected,
}

/// What the responder does with one line.
pub open spec fn stub_reply(line: Seq<u8>) -> StubReply {
    let t = trim_blanks(line);
    if t == lit("p") || t == lit("\\get_pos") {
        StubReply::Position
    } else if t == lit("S") || t == lit("\\stop") {
        StubReply::Stopped
    } else if t == lit("_") || t == lit("\\get_info") {
        StubReply::Info
    } else if t == lit("q") || t == lit("Q") {
        StubReply::Close
    } else if t == lit("\\dump_state") {
        StubReply::StateDump
    } else if has_prefix(t, lit("P ")) || has_prefix(t, lit("\\set_pos ")) {
        match two_numbers(args_after(t, lit("P "), lit("\\set_pos "))) {
            Some((az, el)) => StubReply::PositionSet(az, el),
            None => StubReply::Rejected,
        }
    } else {
        StubReply::Rejected
    }
}

/// Decide what to do with one line (see [`stub_reply`]).
pub fn process_command(line: &[u8]) -> (r: StubReply)
    ensures
        r == stub_reply(line@),
{
    let t = trim(line);
    if is_lit(t, "p") || is_lit(t, "\\get_pos") {
        StubReply::Position
    } else if is_lit(t, "S") || is_lit(t, "\\stop") {
        StubReply::Stopped
    } else if is_lit(t, "_") || is_lit(t, "\\get_info") {
        StubReply::Info
    } else if is_lit(t, "q") || is_lit(t, "Q") {
        StubReply::Close
    } else if is_lit(t, "\\dump_state") {
        StubReply::StateDump
    } else if starts_with_lit(t, "P ") || starts_with_lit(t, "\\set_pos ") {
        let n = t.len();
        let args = if starts_with_lit(t, "P ") {
            &t[literal("P ").len()..n]
        } else {
            &t[literal("\\set_pos ").len()..n]
        };
        match parse_two_floats(args) {
            Some((az, el)) => StubReply::PositionSet(az, el),
            None => StubReply::Rejected,
        }
    } else {
        StubReply::Rejected
    }
}

/// The bytes of a reply that do not depend on the stored position.
pub open spec fn stub_reply_text(r: StubReply) -> Option<Seq<u8>> {
    match r {
        StubReply::Stopped => Some(lit("RPRT 0\n")),
        StubReply::PositionSet(_, _) => Some(lit("RPRT 0\n")),
        StubReply::Info => Some(lit("Model: W5500 Rotator\n")),
        StubReply::StateDump => Some(
            lit("0\nrot_model=0\nmin_az=0.0\nmax_az=360.0\nmin_el=0.0\nmax_el=90.0\n0\n0\n"),
        ),
        StubReply::Rejected => Some(lit("RPRT -1\n")),
        _ => None,
    }
}

/// The bytes of `r` when they are fixed; `None` for a position report and
/// for closing.
pub fn stub_reply_bytes(r: StubReply) -> (out: Option<Vec<u8>>)
    ensures
        match out {
            Some(v) => stub_reply_text(r) == Some(v@),
            None => stub_reply_text(r) is None,
        },
{
    let text = match r {
        StubReply::Stopped => "RPRT 0\n",
        StubReply::PositionSet(_, _) => "RPRT 0\n",
        StubReply::Info => "Model: W5500 Rotator\n",
        StubReply::StateDump => "0\nrot_model=0\nmin_az=0.0\nmax_az=360.0\nmin_el=0.0\nmax_el=90.0\n0\n0\n",
        StubReply::Rejected => "RPRT -1\n",
        _ => return None,
    };
    let mut v: Vec<u8> = Vec::new();
    push_all(&mut v, literal(text));
    Some(v)
}

/// Write `val` in decimal at the start of `buf`; the number of bytes written.
pub fn format_u32(buf: &mut [u8], val: u32) -> (len: usize)
    requires
        decimal_digits(val as nat).len() <= old(buf)@.len(),
    ensures
        len == decimal_digits(val as nat).len(),
        final(buf)@.len() == old(buf)@.len(),
        final(buf)@.subrange(0, len as int) == decimal_digits(val as nat),
        final(buf)@.subrange(len as int, old(buf)@.len() as int) == old(buf)@.subrange(
            len as int,
            old(buf)@.len() as int,
        ),
{
    let mut digits: Vec<u8> = Vec::new();
    push_decimal(&mut digits, val);
    assert(digits@ =~= decimal_digits(val as nat));
    let len = digits.len();
    let mut i: usize = 0;
    while i < len
        invariant
            len == digits@.len() <= buf@.len(),
            digits@ == decimal_digits(val as nat),
            buf@.len() == old(buf)@.len(),
            0 <= i <= len,
            forall|j: int| 0 <= j < i ==> buf@[j] == digits@[j],
            forall|j: int| i <= j < buf@.len() ==> buf@[j] == old(buf)@[j],
        decreases len - i,
    {
        buf[i] = digits[i];
        i = i + 1;
    }
    assert(buf@.subrange(0, len as int) =~= decimal_digits(val as nat));
    assert(buf@.subrange(len as int, old(buf)@.len() as int) =~= old(buf)@.subrange(
        len as int,
        old(buf)@.len() as int,
    ));
    len
}

} // verus!
