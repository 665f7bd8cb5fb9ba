//! The EasyComm II / GS-232 serial front end: how received bytes become
//! command lines, and what each line asks for.

use vstd::prelude::*;
use vstd::utf8::encode_utf8;

use crate::text::{
    first_index_of, has_prefix, is_lit, lit, literal, position_of, push_all, splitn,
    starts_with_lit,
};
use crate::types::{fault_message, FaultKind, Goal, LimitsUpdate, Phase, RotatorCmd};
use crate::util::{
    extract_value_after, field_number, line_contains, number_field, occurs_at, parse_f32_bytes,
    parse_number_bytes, value_after, Decimal,
};

verus! {

/// Longest line the receiver holds; a longer one is thrown away.
pub const LINE_CAPACITY: usize = 128;

/// What one received byte does to the line being collected.
#[derive(Clone, Debug, PartialEq, Eq)]
pub enum SerialEvent {
    /// Nothing to act on yet.
    Nothing,
    /// A carriage return or newline ended this (non-empty) line.
    Line(Vec<u8>),
    /// The line outgrew the buffer; it and this byte were dropped.
    Overflow,
}

/// The line being received on the serial port.
pub struct SerialLine {
    buf: Vec<u8>,
}

/// The bytes held after `byte` arrives at a receiver holding `buf`: a line
/// break empties it, another byte is stored while there is room, and a byte
/// that finds the buffer full is dropped together with what it held.
pub open spec fn serial_held_after(buf: Seq<u8>, byte: u8) -> Seq<u8> {
    if byte == 10 || byte == 13 {
        Seq::<u8>::empty()
    } else if buf.len() < LINE_CAPACITY {
        buf.push(byte)
    } else {
        Seq::<u8>::empty()
    }
}

/// The bytes held after `bytes` arrive one by one at a receiver holding `buf`.
pub open spec fn serial_held_after_all(buf: Seq<u8>, bytes: Seq<u8>) -> Seq<u8>
    decreases bytes.len(),
{
    if bytes.len() == 0 {
        buf
    } else {
        serial_held_after(serial_held_after_all(buf, bytes.drop_last()), bytes.last())
    }
}

impl View for SerialLine {
    type V = Seq<u8>;

    closed spec fn view(&self) -> Seq<u8> {
        self.buf@
    }
}

impl SerialLine {
    pub fn new() -> (r: Self)
        ensures
            r@ == Seq::<u8>::empty(),
    {
        SerialLine { buf: Vec::new() }
    }

    /// Forget the partial line (after a receive error).
    pub fn clear(&mut self)
        ensures
            final(self)@ == Seq::<u8>::empty(),
    {
        self.buf = Vec::new();
    }

    /// Take in one received byte.
    pub fn push(&mut self, byte: u8) -> (e: SerialEvent)
        ensures
            final(self)@ == serial_held_after(old(self)@, byte),
            (byte == 10 || byte == 13) && old(self)@.len() == 0 ==> e == SerialEvent::Nothing
                && final(self)@ == old(self)@,
            (byte == 10 || byte == 13) && old(self)@.len() > 0 ==> (e matches SerialEvent::Line(l)
                && l@ == old(self)@) && final(self)@ == Seq::<u8>::empty(),
            byte != 10 && byte != 13 && old(self)@.len() < LINE_CAPACITY ==> e
                == SerialEvent::Nothing && final(self)@ == old(self)@.push(byte),
            byte != 10 && byte != 13 && old(self)@.len() >= LINE_CAPACITY ==> e
                == SerialEvent::Overflow && final(self)@ == Seq::<u8>::empty(),
    {
        if byte == 10 || byte == 13 {
            if self.buf.len() == 0 {
                return SerialEvent::Nothing;
            }
            let mut line = Vec::new();
            std::mem::swap(&mut line, &mut self.buf);
            SerialEvent::Line(line)
        } else if self.buf.len() < LINE_CAPACITY {
            self.buf.push(byte);
            SerialEvent::Nothing
        } else {
            self.buf = Vec::new();
            SerialEvent::Overflow
        }
    }
}

/// Answers sent back on the serial port.
#[derive(Clone, Copy, Debug, PartialEq, Eq, Structural)]
pub enum SerialReply {
    /// `Polar Pilot v0.1`.
    Version,
    /// `LM <az_min> <az_max> <el_min> <el_max>`, one decimal each.
    Limits,
    /// A lone carriage return.
    KeepAlive,
    /// `AZ<az> EL<el>` of the current position, one decimal each.
    Position,
    /// `FAULT: <message>`.
    Fault(FaultKind),
}

/// Why a line was ignored.
#[derive(Clone, Copy, Debug, PartialEq, Eq, Structural)]
pub enum Complaint {
    BadLimits,
    BadAzimuth,
    BadElevation,
    BadPairArgs,
    BadPairFormat,
    Unknown,
}

/// What one line asks for.
#[derive(Clone, Copy, Debug, PartialEq, Eq, Structural)]
pub enum Action {
    Reply(SerialReply),
    Command(RotatorCmd),
    SetLimits(LimitsUpdate),
    Ignore(Complaint),
}

pub open spec fn goal_or_target(v: Option<Decimal>) -> Goal {
    match v {
        Some(d) => Goal::To(d),
        None => Goal::HoldTarget,
    }
}

pub open spec fn limits_action(args: Seq<u8>) -> Action {
    match (
        number_field(args, 4, 0),
        number_field(args, 4, 1),
        number_field(args, 4, 2),
        number_field(args, 4, 3),
    ) {
        (Some(az_min), Some(az_max), Some(el_min), Some(el_max)) => Action::SetLimits(
            LimitsUpdate { az_min, az_max, el_min, el_max },
        ),
        _ => Action::Ignore(Complaint::BadLimits),
    }
}

/// `W<az> <el>` (GS-232B): both axes, separated by one space.
pub open spec fn pair_action(args: Seq<u8>) -> Action {
    match first_index_of(args, 32) {
        None => Action::Ignore(Complaint::BadPairFormat),
        Some(sp) => match (
            parse_number_bytes(args.subrange(0, sp)),
            parse_number_bytes(args.subrange(sp + 1, args.len() as int)),
        ) {
            (Some(az), Some(el)) => Action::Command(
                RotatorCmd::GoTo { az: Goal::To(az), el: Goal::To(el) },
            ),
            _ => Action::Ignore(Complaint::BadPairArgs),
        },
    }
}

/// `AZ<az> EL<el>` and its halves: the axes that carry a number move,
/// the other keeps its target; a bare `AZ` asks for the position.
pub open spec fn position_action(line: Seq<u8>) -> Action {
    let has_az = has_prefix(line, lit("AZ"));
    let has_el = exists|i: int| occurs_at(line, lit("EL"), i);
    if has_az || has_el {
        let az = value_after(line, lit("AZ"));
        let el = value_after(line, lit("EL"));
        if az is None && el is None && has_az {
            Action::Reply(SerialReply::Position)
        } else {
            Action::Command(RotatorCmd::GoTo { az: goal_or_target(az), el: goal_or_target(el) })
        }
    } else {
        Action::Ignore(Complaint::Unknown)
    }
}

/// What a received line asks for.
pub open spec fn easycom_action(line: Seq<u8>) -> Action {
    if line == lit("VE") {
        Action::Reply(SerialReply::Version)
    } else if line == lit("SA") || line == lit("SE") || line == lit("SA SE") {
        Action::Command(RotatorCmd::Stop)
    } else if line == lit("LM") {
        Action::Reply(SerialReply::Limits)
    } else if has_prefix(line, lit("LM ")) {
        limits_action(line.subrange(lit("LM ").len() as int, line.len() as int))
    } else if line == lit("?") {
        Action::Reply(SerialReply::KeepAlive)
    } else if line == lit("C") {
        Action::Reply(SerialReply::Position)
    } else if line.len() > 1 && line[0] == 65 && line[1] != 90 {
        match parse_number_bytes(line.subrange(1, line.len() as int)) {
            Some(az) => Action::Command(RotatorCmd::GoTo { az: Goal::To(az), el: Goal::HoldTarget }),
            None => Action::Ignore(Complaint::BadAzimuth),
        }
    } else if line.len() > 1 && line[0] == 69 && line[1] != 76 {
        match parse_number_bytes(line.subrange(1, line.len() as int)) {
            Some(el) => Action::Command(RotatorCmd::GoTo { az: Goal::HoldTarget, el: Goal::To(el) }),
            None => Action::Ignore(Complaint::BadElevation),
        }
    } else if has_prefix(line, lit("W ")) {
        pair_action(line.subrange(lit("W ").len() as int, line.len() as int))
    } else {
        position_action(line)
    }
}

/// What a received line does while the rotator is in `phase`: while a
/// fault is present every line is answered with the fault and sends
/// nothing; otherwise it does what it asks for.
pub open spec fn serial_outcome(line: Seq<u8>, phase: Phase) -> Action {
    match phase {
        Phase::Fault(k) => Action::Reply(SerialReply::Fault(k)),
        _ => easycom_action(line),
    }
}

fn goal_from(v: Option<Decimal>) -> (g: Goal)
    ensures
        g == goal_or_target(v),
{
    match v {
        Some(d) => Goal::To(d),
        None => Goal::HoldTarget,
    }
}

/// What to do with one received line while the rotator is in `phase`
/// (see [`serial_outcome`]).
pub fn decode(line: &[u8], phase: Phase) -> (a: Action)
    ensures
        a == serial_outcome(line@, phase),
{
    if let Phase::Fault(k) = phase {
        return Action::Reply(SerialReply::Fault(k));
    }
    read_line(line)
}

/// What one received line asks for (see [`easycom_action`]).
fn read_line(line: &[u8]) -> (a: Action)
    ensures
        a == easycom_action(line@),
{
    let n = line.len();
    if is_lit(line, "VE") {
        Action::Reply(SerialReply::Version)
    } else if is_lit(line, "SA") || is_lit(line, "SE") || is_lit(line, "SA SE") {
        Action::Command(RotatorCmd::Stop)
    } else if is_lit(line, "LM") {
        Action::Reply(SerialReply::Limits)
    } else if starts_with_lit(line, "LM ") {
        let args = &line[literal("LM ").len()..n];
        let parts = splitn(args, 32, 4);
        let az_min = field_number(&parts, 0);
        let az_max = field_number(&parts, 1);
        let el_min = field_number(&parts, 2);
        let el_max = field_number(&parts, 3);
        match (az_min, az_max, el_min, el_max) {
            (Some(az_min), Some(az_max), Some(el_min), Some(el_max)) => Action::SetLimits(
                LimitsUpdate { az_min, az_max, el_min, el_max },
            ),
            _ => Action::Ignore(Complaint::BadLimits),
        }
    } else if is_lit(line, "?") {
        Action::Reply(SerialReply::KeepAlive)
    } else if is_lit(line, "C") {
        Action::Reply(SerialReply::Position)
    } else if n > 1 && line[0] == 65 && line[1] != 90 {
        match parse_f32_bytes(&line[1..n]) {
            Some(az) => Action::Command(RotatorCmd::GoTo { az: Goal::To(az), el: Goal::HoldTarget }),
            None => Action::Ignore(Complaint::BadAzimuth),
        }
    } else if n > 1 && line[0] == 69 && line[1] != 76 {
        match parse_f32_bytes(&line[1..n]) {
            Some(el) => Action::Command(RotatorCmd::GoTo { az: Goal::HoldTarget, el: Goal::To(el) }),
            None => Action::Ignore(Complaint::BadElevation),
        }
    } else if starts_with_lit(line, "W ") {
        let args = &line[literal("W ").len()..n];
        let m = args.len();
        match position_of(args, 32) {
            None => Action::Ignore(Complaint::BadPairFormat),
            Some(sp) => {
                proof {
                    crate::text::lemma_first_index_of(args@, 32);
                }
                assert(sp < m);
                match (parse_f32_bytes(&args[0..sp]), parse_f32_bytes(&args[sp + 1..m])) {
                    (Some(az), Some(el)) => Action::Command(
                        RotatorCmd::GoTo { az: Goal::To(az), el: Goal::To(el) },
                    ),
                    _ => Action::Ignore(Complaint::BadPairArgs),
                }
            },
        }
    } else {
        let has_az = starts_with_lit(line, "AZ");
        let has_el = line_contains(line, literal("EL"));
        if has_az || has_el {
            let az = extract_value_after(line, literal("AZ"));
            let el = extract_value_after(line, literal("EL"));
            if az.is_none() && el.is_none() && has_az {
                Action::Reply(SerialReply::Position)
            } else {
                Action::Command(RotatorCmd::GoTo { az: goal_from(az), el: goal_from(el) })
            }
        } else {
            Action::Ignore(Complaint::Unknown)
        }
    }
}

/// The bytes of a reply whose text does not depend on the rotator's
/// position or limits.
pub open spec fn fixed_serial_text(reply: SerialReply) -> Option<Seq<u8>> {
    match reply {
        SerialReply::Version => Some(lit("Polar Pilot v0.1\n")),
        SerialReply::KeepAlive => Some(lit("\r")),
        SerialReply::Fault(k) => Some(lit("FAULT: ") + encode_utf8(fault_message(k)) + lit("\n")),
        _ => None,
    }
}

/// The bytes of `reply` when they are fixed; `None` for the replies that
/// report the position or the limits.
pub fn fixed_serial_reply(reply: SerialReply) -> (r: Option<Vec<u8>>)
    ensures
        match r {
            Some(v) => fixed_serial_text(reply) == Some(v@),
            None => fixed_serial_text(reply) is None,
        },
{
    let mut out: Vec<u8> = Vec::new();
    match reply {
        SerialReply::Version => push_all(&mut out, literal("Polar Pilot v0.1\n")),
        SerialReply::KeepAlive => push_all(&mut out, literal("\r")),
        SerialReply::Fault(k) => {
            push_all(&mut out, literal("FAULT: "));
            push_all(&mut out, literal(k.message()));
            push_all(&mut out, literal("\n"));
        },
        _ => return None,
    }
    Some(out)
}

} // verus!
