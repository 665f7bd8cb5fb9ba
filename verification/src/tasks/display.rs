//! Text shown on the OLED next to the polar chart.

use vstd::prelude::*;

use crate::text::{decimal_digits, lit, literal, push_all, push_decimal};
use crate::types::{fault_message, FaultKind, Phase};

verus! {

/// The status line: `Homing`, `Moving`, `Idle` (has an address) or `No IP`.
pub open spec fn status_text(phase: Phase, moving: bool, has_ip: bool) -> Seq<char> {
    match phase {
        Phase::Homing => "Homing"@,
        _ => if moving {
            "Moving"@
        } else if has_ip {
            "Idle"@
        } else {
            "No IP"@
        },
    }
}

/// The status line of the chart screen; a fault has a screen of its own.
pub fn status_label(phase: Phase, moving: bool, has_ip: bool) -> (r: &'static str)
    requires
        !(phase is Fault),
    ensures
        r@ == status_text(phase, moving, has_ip),
{
    match phase {
        Phase::Homing => "Homing",
        _ => if moving {
            "Moving"
        } else if has_ip {
            "Idle"
        } else {
            "No IP"
        },
    }
}

/// The four lines of the fault screen.
pub fn fault_screen(kind: FaultKind) -> (lines: (&'static str, &'static str, &'static str, &'static str))
    ensures
        lines.0@ == "FAULT"@,
        lines.1@ == fault_message(kind),
        lines.2@ == "Power cycle"@,
        lines.3@ == "to reset"@,
{
    ("FAULT", kind.message(), "Power cycle", "to reset")
}

/// `A.B.`: the first half of an address, or `---.---.` without one.
pub open spec fn ip_upper_text(addr: Option<[u8; 4]>) -> Seq<u8> {
    match addr {
        Some(o) => decimal_digits(o[0] as nat) + lit(".") + decimal_digits(o[1] as nat) + lit("."),
        None => lit("---.---."),
    }
}

/// `C.D`: the second half of an address, or `---.---` without one.
pub open spec fn ip_lower_text(addr: Option<[u8; 4]>) -> Seq<u8> {
    match addr {
        Some(o) => decimal_digits(o[2] as nat) + lit(".") + decimal_digits(o[3] as nat),
        None => lit("---.---"),
    }
}

/// The upper address row.
pub fn ip_upper_row(addr: Option<[u8; 4]>) -> (r: Vec<u8>)
    ensures
        r@ == ip_upper_text(addr),
{
    let mut out: Vec<u8> = Vec::new();
    match addr {
        Some(o) => {
            push_decimal(&mut out, o[0] as u32);
            push_all(&mut out, literal("."));
            push_decimal(&mut out, o[1] as u32);
            push_all(&mut out, literal("."));
        },
        None => push_all(&mut out, literal("---.---.")),
    }
    proof {
        assert(out@ =~= ip_upper_text(addr));
    }
    out
}

/// The lower address row.
pub fn ip_lower_row(addr: Option<[u8; 4]>) -> (r: Vec<u8>)
    ensures
        r@ == ip_lower_text(addr),
{
    let mut out: Vec<u8> = Vec::new();
    match addr {
        Some(o) => {
            push_decimal(&mut out, o[2] as u32);
            push_all(&mut out, literal("."));
            push_decimal(&mut out, o[3] as u32);
        },
        None => push_all(&mut out, literal("---.---")),
    }
    proof {
        assert(out@ =~= ip_lower_text(addr));
    }
    out
}

/// `v` in decimal, with a leading `-` when negative.
pub open spec fn signed_decimal(v: int) -> Seq<u8> {
    if v < 0 {
        seq![45u8] + decimal_digits((-v) as nat)
    } else {
        decimal_digits(v as nat)
    }
}

/// `s` right-aligned in a field of `width` bytes, padded with spaces.
pub open spec fn pad_left(s: Seq<u8>, width: nat) -> Seq<u8> {
    if s.len() < width {
        Seq::new((width - s.len()) as nat, |i: int| 32u8) + s
    } else {
        s
    }
}

/// A readout line such as `AZ: 42`: the label, then `value` right-aligned
/// in three columns.
pub fn readout(label: &str, value: i32) -> (r: Vec<u8>)
    ensures
        r@ == lit(label) + pad_left(signed_decimal(value as int), 3),
{
    let mut digits: Vec<u8> = Vec::new();
    if value < 0 {
        digits.push(45);
        let magnitude: u32 = if value == i32::MIN {
            2147483648
        } else {
            (-value) as u32
        };
        push_decimal(&mut digits, magnitude);
    } else {
        push_decimal(&mut digits, value as u32);
    }
    assert(digits@ =~= signed_decimal(value as int));
    let mut out: Vec<u8> = Vec::new();
    push_all(&mut out, literal(label));
    let mut pad = digits.len();
    while pad < 3
        invariant
            digits.len() <= pad <= 3 || (pad == digits.len() && pad >= 3),
            out@ == lit(label) + Seq::new((pad - digits.len()) as nat, |i: int| 32u8),
        decreases 3 - pad,
    {
        out.push(32);
        pad = pad + 1;
        assert(out@ =~= lit(label) + Seq::new((pad - digits.len()) as nat, |i: int| 32u8));
    }
    push_all(&mut out, digits.as_slice());
    assert(out@ =~= lit(label) + pad_left(signed_decimal(value as int), 3));
    out
}

} // verus!
