//! The Hamlib rotctld server: how received bytes become command lines, and
//! what each line is answered and asks of the motor.

use vstd::prelude::*;
use vstd::utf8::{encode_utf8, valid_utf8};

use crate::text::{has_prefix, is_lit, lit, literal, push_all, split_parts, splitn, starts_with_lit};
use crate::types::{fault_message, FaultKind, Goal, LimitsUpdate, Phase, RotatorCmd};
use crate::util::{field_number, number_field, parse_u8, u8_from_text, utf8_text, Decimal};

verus! {

/// Longest command line a client may send; a longer one closes the connection.
pub const LINE_CAPACITY: usize = 128;

/// The TCP port the server listens on.
pub const ROTCTLD_PORT: u16 = 4533;

/// What one received byte does to the line being collected.
#[derive(Clone, Debug, PartialEq, Eq)]
pub enum LineEvent {
    /// The byte was stored; the line is not complete yet.
    Pending,
    /// A newline completed this line (a final carriage return removed).
    Line(Vec<u8>),
    /// The line is longer than [`LINE_CAPACITY`]: the connection is dropped.
    Overflow,
}

/// The command line being received on one connection.
pub struct LineBuffer {
    buf: Vec<u8>,
}

/// `s` without one trailing carriage return.
pub open spec fn strip_cr(s: Seq<u8>) -> Seq<u8> {
    if s.len() > 0 && s.last() == 13 {
        s.drop_last()
    } else {
        s
    }
}

/// The bytes held after `byte` arrives at a buffer holding `buf`: a newline
/// empties it, another byte is stored while there is room.
pub open spec fn held_after(buf: Seq<u8>, byte: u8) -> Seq<u8> {
    if byte == 10 {
        Seq::<u8>::empty()
    } else if buf.len() < LINE_CAPACITY {
        buf.push(byte)
    } else {
        buf
    }
}

/// The bytes held after `bytes` arrive one by one at a buffer holding `buf`.
pub open spec fn held_after_all(buf: Seq<u8>, bytes: Seq<u8>) -> Seq<u8>
    decreases bytes.len(),
{
    if bytes.len() == 0 {
        buf
    } else {
        held_after(held_after_all(buf, bytes.drop_last()), bytes.last())
    }
}

impl View for LineBuffer {
    type V = Seq<u8>;

    closed spec fn view(&self) -> Seq<u8> {
        self.buf@
    }
}

impl LineBuffer {
    pub fn new() -> (r: Self)
        ensures
            r@ == Seq::<u8>::empty(),
    {
        LineBuffer { buf: Vec::new() }
    }

    /// Take in one received byte.
    pub fn push(&mut self, byte: u8) -> (e: LineEvent)
        ensures
            final(self)@ == held_after(old(self)@, byte),
            byte == 10 && old(self)@.len() > 0 && old(self)@.last() == 13 ==> (e matches LineEvent::Line(
                l,
            ) && l@ == old(self)@.subrange(0, old(self)@.len() - 1)),
            byte == 10 && !(old(self)@.len() > 0 && old(self)@.last() == 13) ==> (e matches LineEvent::Line(
                l,
            ) && l@ == old(self)@),
            byte == 10 ==> (e matches LineEvent::Line(l) && l@ == strip_cr(old(self)@)) 
                && final(self)@ == Seq::<u8>::empty(),
            byte != 10 && old(self)@.len() < LINE_CAPACITY ==> e == LineEvent::Pending
                && final(self)@ == old(self)@.push(byte),
            byte != 10 && old(self)@.len() >= LINE_CAPACITY ==> e == LineEvent::Overflow
                && final(self)@ == old(self)@,
    {
        if byte == 10 {
            let mut line = Vec::new();
            std::mem::swap(&mut line, &mut self.buf);
            let n = line.len();
            if n > 0 && line[n - 1] == 13 {
                line.pop();
            }
            proof {
                assert(line@ =~= strip_cr(old(self)@));
            }
            LineEvent::Line(line)
        } else if self.buf.len() < LINE_CAPACITY {
            self.buf.push(byte);
            LineEvent::Pending
        } else {
            LineEvent::Overflow
        }
    }
}

/// How a command line is answered.
#[derive(Clone, Copy, Debug, PartialEq, Eq, Structural)]
pub enum Reply {
    /// The current azimuth and elevation, one decimal each, one per line.
    Position,
    /// `FAULT: <message>` and `RPRT -9`.
    Fault(FaultKind),
    /// `RPRT 0`.
    Ack,
    /// `RPRT -1`.
    Reject,
    /// `RPRT -8`: the line holds no command at all.
    NotImplemented,
    /// The four soft limits, one per line, and `RPRT 0`.
    Limits,
    /// The capabilities dump, which lists the soft limits.
    Capabilities,
    /// `Model: Polar Pilot`.
    Info,
    /// The `\dump_state` block, which lists the soft limits.
    StateDump,
    /// Nothing is sent; the connection is closed.
    Disconnect,
}

/// Everything one command line does.
#[derive(Clone, Copy, Debug, PartialEq, Eq, Structural)]
pub struct Outcome {
    pub reply: Reply,
    /// Sent to the motor controller.
    pub command: Option<RotatorCmd>,
    /// Stored as the new soft limits.
    pub limits: Option<LimitsUpdate>,
}

pub open spec fn answer(reply: Reply) -> Outcome {
    Outcome { reply, command: None, limits: None }
}

pub open spec fn order(cmd: RotatorCmd) -> Outcome {
    Outcome { reply: Reply::Ack, command: Some(cmd), limits: None }
}

/// Every command is refused with the fault while one is present.
pub open spec fn unless_faulted(phase: Phase, o: Outcome) -> Outcome {
    match phase {
        Phase::Fault(k) => answer(Reply::Fault(k)),
        _ => o,
    }
}

/// A space, tab, vertical tab, form feed or carriage return.
pub open spec fn is_space_byte(b: u8) -> bool {
    b == 32 || b == 9 || b == 11 || b == 12 || b == 13
}

/// The line is empty or holds only white space.
pub open spec fn blank_line(t: Seq<u8>) -> bool {
    forall|i: int| 0 <= i < t.len() ==> is_space_byte(#[trigger] t[i])
}

/// The arguments after whichever of two command prefixes `t` starts with.
pub open spec fn args_after(t: Seq<u8>, short: Seq<u8>, long: Seq<u8>) -> Seq<u8> {
    if has_prefix(t, short) {
        t.subrange(short.len() as int, t.len() as int)
    } else {
        t.subrange(long.len() as int, t.len() as int)
    }
}

/// A command line, as the server reads it.
#[derive(Clone, Copy, Debug, PartialEq, Eq, Structural)]
pub enum Request {
    /// `p`, `\get_pos`.
    GetPosition,
    /// `P <az> <el>`, `\set_pos <az> <el>`; the fields that read as numbers.
    SetPosition { az: Option<Decimal>, el: Option<Decimal> },
    /// `S`, `\stop`.
    Stop,
    /// `l`, `\get_limits`.
    GetLimits,
    /// `L <az_min> <az_max> <el_min> <el_max>`, `\set_limits …`.
    SetLimits {
        az_min: Option<Decimal>,
        az_max: Option<Decimal>,
        el_min: Option<Decimal>,
        el_max: Option<Decimal>,
    },
    /// `M <dir> <speed>`, `\move …`; the direction code when it reads as a byte.
    Move { direction: Option<u8> },
    /// `1`, `\dump_caps`.
    DumpCaps,
    /// `R`, `\reset`, with or without an argument.
    Reset,
    /// `q`, `\quit`.
    Quit,
    /// `_`, `\get_info`.
    GetInfo,
    /// `\dump_state`.
    DumpState,
    /// An empty line, or one of white space only.
    Blank,
    /// Anything else.
    Unknown,
}

/// The direction code of a `M <dir> <speed>` command.
pub open spec fn move_direction(args: Seq<u8>) -> Option<u8> {
    let parts = split_parts(args, 32, 2);
    if parts.len() > 0 {
        u8_from_text(parts[0])
    } else {
        None
    }
}

/// How the server reads one command line: a line that is not UTF-8 is not
/// a command it knows.
pub open spec fn rotctld_request(line: Seq<u8>) -> Request {
    if !valid_utf8(line) {
        Request::Unknown
    } else {
        command_request(line)
    }
}

/// How the server reads a command line that is UTF-8 text `t`.
pub open spec fn command_request(t: Seq<u8>) -> Request {
    if blank_line(t) {
        Request::Blank
    } else if t == lit("p") || t == lit("\\get_pos") {
        Request::GetPosition
    } else if has_prefix(t, lit("P ")) || has_prefix(t, lit("\\set_pos ")) {
        let args = args_after(t, lit("P "), lit("\\set_pos "));
        Request::SetPosition { az: number_field(args, 2, 0), el: number_field(args, 2, 1) }
    } else if t == lit("S") || t == lit("\\stop") {
        Request::Stop
    } else if t == lit("l") || t == lit("\\get_limits") {
        Request::GetLimits
    } else if has_prefix(t, lit("L ")) || has_prefix(t, lit("\\set_limits ")) {
        let args = args_after(t, lit("L "), lit("\\set_limits "));
        Request::SetLimits {
            az_min: number_field(args, 4, 0),
            az_max: number_field(args, 4, 1),
            el_min: number_field(args, 4, 2),
            el_max: number_field(args, 4, 3),
        }
    } else if has_prefix(t, lit("M ")) || has_prefix(t, lit("\\move ")) {
        Request::Move { direction: move_direction(args_after(t, lit("M "), lit("\\move "))) }
    } else if t == lit("1") || t == lit("\\dump_caps") {
        Request::DumpCaps
    } else if has_prefix(t, lit("R ")) || has_prefix(t, lit("\\reset ")) || t == lit("R") || t
        == lit("\\reset") {
        Request::Reset
    } else if t == lit("q") || t == lit("\\quit") {
        Request::Quit
    } else if t == lit("_") || t == lit("\\get_info") {
        Request::GetInfo
    } else if t == lit("\\dump_state") {
        Request::DumpState
    } else {
        Request::Unknown
    }
}

/// Directions: 2 up, 4 down (elevation); 8 left, 16 right (azimuth).  The
/// moving axis is sent to the far sentinel, the other holds its position.
pub open spec fn jog(dir: Option<u8>) -> Outcome {
    match dir {
        Some(2) => order(RotatorCmd::GoTo { az: Goal::HoldCurrent, el: Goal::JogUp }),
        Some(4) => order(RotatorCmd::GoTo { az: Goal::HoldCurrent, el: Goal::JogDown }),
        Some(8) => order(RotatorCmd::GoTo { az: Goal::JogDown, el: Goal::HoldCurrent }),
        Some(16) => order(RotatorCmd::GoTo { az: Goal::JogUp, el: Goal::HoldCurrent }),
        _ => answer(Reply::Reject),
    }
}

/// What a request does while no fault is present.
pub open spec fn served_outcome(req: Request) -> Outcome {
    match req {
        Request::GetPosition => answer(Reply::Position),
        Request::SetPosition { az, el } => match (az, el) {
            (Some(az), Some(el)) => order(RotatorCmd::GoTo { az: Goal::To(az), el: Goal::To(el) }),
            _ => answer(Reply::Reject),
        },
        Request::Stop => order(RotatorCmd::Stop),
        Request::GetLimits => answer(Reply::Limits),
        Request::SetLimits { az_min, az_max, el_min, el_max } => match (
            az_min,
            az_max,
            el_min,
            el_max,
        ) {
            (Some(az_min), Some(az_max), Some(el_min), Some(el_max)) => Outcome {
                reply: Reply::Ack,
                command: None,
                limits: Some(LimitsUpdate { az_min, az_max, el_min, el_max }),
            },
            _ => answer(Reply::Reject),
        },
        Request::Move { direction } => jog(direction),
        Request::DumpCaps => answer(Reply::Capabilities),
        Request::Reset => order(RotatorCmd::GoTo { az: Goal::Zero, el: Goal::Zero }),
        Request::Quit => answer(Reply::Disconnect),
        Request::GetInfo => answer(Reply::Info),
        Request::DumpState => answer(Reply::StateDump),
        Request::Blank => answer(Reply::NotImplemented),
        Request::Unknown => answer(Reply::Reject),
    }
}

/// What a request does while the rotator is in `phase`.  A blank line is
/// answered `RPRT -8` in any phase; while a fault is present every other
/// line is answered with the fault and changes nothing.
pub open spec fn request_outcome(req: Request, phase: Phase) -> Outcome {
    match req {
        Request::Blank => answer(Reply::NotImplemented),
        _ => unless_faulted(phase, served_outcome(req)),
    }
}

/// What the server does with one command line while the rotator is in `phase`.
pub open spec fn rotctld_outcome(line: Seq<u8>, phase: Phase) -> Outcome {
    request_outcome(rotctld_request(line), phase)
}

fn answer_with(reply: Reply) -> (o: Outcome)
    ensures
        o == answer(reply),
{
    Outcome { reply, command: None, limits: None }
}

fn order_with(cmd: RotatorCmd) -> (o: Outcome)
    ensures
        o == order(cmd),
{
    Outcome { reply: Reply::Ack, command: Some(cmd), limits: None }
}

fn fault_of(phase: Phase) -> (r: Option<FaultKind>)
    ensures
        match phase {
            Phase::Fault(k) => r == Some(k),
            _ => r is None,
        },
{
    match phase {
        Phase::Fault(k) => Some(k),
        _ => None,
    }
}

/// The arguments after the prefix `short` or, failing that, `long`.
fn args_of<'a>(t: &'a [u8], short: &str, long: &str) -> (r: &'a [u8])
    requires
        has_prefix(t@, lit(short)) || has_prefix(t@, lit(long)),
    ensures
        r@ == args_after(t@, lit(short), lit(long)),
{
    let n = t.len();
    if starts_with_lit(t, short) {
        &t[literal(short).len()..n]
    } else {
        &t[literal(long).len()..n]
    }
}

/// Whether `t` is empty or holds only white space.
fn is_blank(t: &[u8]) -> (r: bool)
    ensures
        r == blank_line(t@),
{
    let mut i: usize = 0;
    while i < t.len()
        invariant
            0 <= i <= t.len(),
            forall|j: int| 0 <= j < i ==> is_space_byte(#[trigger] t@[j]),
        decreases t.len() - i,
    {
        let b = t[i];
        if !(b == 32 || b == 9 || b == 11 || b == 12 || b == 13) {
            assert(!is_space_byte(t@[i as int]));
            return false;
        }
        i = i + 1;
    }
    true
}

/// Read one command line (see [`rotctld_request`]).
pub fn classify(line: &[u8]) -> (r: Request)
    ensures
        r == rotctld_request(line@),
{
    if utf8_text(line).is_none() {
        return Request::Unknown;
    }
    let t = line;
    if is_blank(t) {
        Request::Blank
    } else if is_lit(t, "p") || is_lit(t, "\\get_pos") {
        Request::GetPosition
    } else if starts_with_lit(t, "P ") || starts_with_lit(t, "\\set_pos ") {
        let args = args_of(t, "P ", "\\set_pos ");
        let parts = splitn(args, 32, 2);
        Request::SetPosition { az: field_number(&parts, 0), el: field_number(&parts, 1) }
    } else if is_lit(t, "S") || is_lit(t, "\\stop") {
        Request::Stop
    } else if is_lit(t, "l") || is_lit(t, "\\get_limits") {
        Request::GetLimits
    } else if starts_with_lit(t, "L ") || starts_with_lit(t, "\\set_limits ") {
        let args = args_of(t, "L ", "\\set_limits ");
        let parts = splitn(args, 32, 4);
        Request::SetLimits {
            az_min: field_number(&parts, 0),
            az_max: field_number(&parts, 1),
            el_min: field_number(&parts, 2),
            el_max: field_number(&parts, 3),
        }
    } else if starts_with_lit(t, "M ") || starts_with_lit(t, "\\move ") {
        let args = args_of(t, "M ", "\\move ");
        let parts = splitn(args, 32, 2);
        let direction = if parts.len() > 0 {
            parse_u8(parts[0])
        } else {
            None
        };
        Request::Move { direction }
    } else if is_lit(t, "1") || is_lit(t, "\\dump_caps") {
        Request::DumpCaps
    } else if starts_with_lit(t, "R ") || starts_with_lit(t, "\\reset ") || is_lit(t, "R") || is_lit(
        t,
        "\\reset",
    ) {
        Request::Reset
    } else if is_lit(t, "q") || is_lit(t, "\\quit") {
        Request::Quit
    } else if is_lit(t, "_") || is_lit(t, "\\get_info") {
        Request::GetInfo
    } else if is_lit(t, "\\dump_state") {
        Request::DumpState
    } else {
        Request::Unknown
    }
}

/// Carry out a request while the rotator is in `phase` (see [`request_outcome`]).
pub fn handle(req: Request, phase: Phase) -> (o: Outcome)
    ensures
        o == request_outcome(req, phase),
{
    if let Request::Blank = req {
        return answer_with(Reply::NotImplemented);
    }
    if let Some(k) = fault_of(phase) {
        return answer_with(Reply::Fault(k));
    }
    match req {
        Request::GetPosition => answer_with(Reply::Position),
        Request::SetPosition { az, el } => match (az, el) {
            (Some(az), Some(el)) => order_with(
                RotatorCmd::GoTo { az: Goal::To(az), el: Goal::To(el) },
            ),
            _ => answer_with(Reply::Reject),
        },
        Request::Stop => order_with(RotatorCmd::Stop),
        Request::Move { direction } => match direction {
            Some(2) => order_with(RotatorCmd::GoTo { az: Goal::HoldCurrent, el: Goal::JogUp }),
            Some(4) => order_with(RotatorCmd::GoTo { az: Goal::HoldCurrent, el: Goal::JogDown }),
            Some(8) => order_with(RotatorCmd::GoTo { az: Goal::JogDown, el: Goal::HoldCurrent }),
            Some(16) => order_with(RotatorCmd::GoTo { az: Goal::JogUp, el: Goal::HoldCurrent }),
            _ => answer_with(Reply::Reject),
        },
        Request::Reset => order_with(RotatorCmd::GoTo { az: Goal::Zero, el: Goal::Zero }),
        Request::GetLimits => answer_with(Reply::Limits),
        Request::SetLimits { az_min, az_max, el_min, el_max } => match (
            az_min,
            az_max,
            el_min,
            el_max,
        ) {
            (Some(az_min), Some(az_max), Some(el_min), Some(el_max)) => Outcome {
                reply: Reply::Ack,
                command: None,
                limits: Some(LimitsUpdate { az_min, az_max, el_min, el_max }),
            },
            _ => answer_with(Reply::Reject),
        },
        Request::DumpCaps => answer_with(Reply::Capabilities),
        Request::Quit => answer_with(Reply::Disconnect),
        Request::GetInfo => answer_with(Reply::Info),
        Request::DumpState => answer_with(Reply::StateDump),
        Request::Blank => answer_with(Reply::NotImplemented),
        Request::Unknown => answer_with(Reply::Reject),
    }
}

/// What to do with one command line (see [`rotctld_outcome`]).
pub fn respond(line: &[u8], phase: Phase) -> (o: Outcome)
    ensures
        o == rotctld_outcome(line@, phase),
{
    handle(classify(line), phase)
}

/// The bytes of a reply whose text does not depend on the rotator's
/// position or limits.
pub open spec fn fixed_reply_text(reply: Reply) -> Option<Seq<u8>> {
    match reply {
        Reply::Fault(k) => Some(lit("FAULT: ") + encode_utf8(fault_message(k)) + lit("\nRPRT -9\n")),
        Reply::Ack => Some(lit("RPRT 0\n")),
        Reply::Reject => Some(lit("RPRT -1\n")),
        Reply::NotImplemented => Some(lit("RPRT -8\n")),
        Reply::Info => Some(lit("Model: Polar Pilot\n")),
        _ => None,
    }
}

/// The bytes of `reply` when they are fixed; `None` for the replies that
/// report the position or the limits, and for a disconnect.
pub fn fixed_reply(reply: Reply) -> (r: Option<Vec<u8>>)
    ensures
        match r {
            Some(v) => fixed_reply_text(reply) == Some(v@),
            None => fixed_reply_text(reply) is None,
        },
{
    let mut out: Vec<u8> = Vec::new();
    match reply {
        Reply::Fault(k) => {
            push_all(&mut out, literal("FAULT: "));
            push_all(&mut out, literal(k.message()));
            push_all(&mut out, literal("\nRPRT -9\n"));
        },
        Reply::Ack => push_all(&mut out, literal("RPRT 0\n")),
        Reply::Reject => push_all(&mut out, literal("RPRT -1\n")),
        Reply::NotImplemented => push_all(&mut out, literal("RPRT -8\n")),
        Reply::Info => push_all(&mut out, literal("Model: Polar Pilot\n")),
        _ => return None,
    }
    Some(out)
}

} // verus!
