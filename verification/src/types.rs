//! Values shared between the front ends and the motor controller.

use vstd::prelude::*;

use crate::util::Decimal;

verus! {

/// One of the two rotator axes.
#[derive(Clone, Copy, Debug, PartialEq, Eq, Structural)]
pub enum Axis {
    Az,
    El,
}

/// An unrecoverable hardware fault found while homing.
#[derive(Clone, Copy, Debug, PartialEq, Eq, Structural)]
pub enum FaultKind {
    /// The axis was on its endstop and backing off did not release it.
    EndstopStuck(Axis),
    /// The axis travelled its whole homing budget without reaching the endstop.
    TravelLimit(Axis),
}

/// The short message that names a fault on the display and on the wire.
pub open spec fn fault_message(k: FaultKind) -> Seq<char> {
    match k {
        FaultKind::EndstopStuck(Axis::Az) => "AZ endstop stuck"@,
        FaultKind::EndstopStuck(Axis::El) => "EL endstop stuck"@,
        FaultKind::TravelLimit(Axis::Az) => "AZ travel limit"@,
        FaultKind::TravelLimit(Axis::El) => "EL travel limit"@,
    }
}

impl FaultKind {
    /// The message of this fault.
    pub fn message(&self) -> (r: &'static str)
        ensures
            r@ == fault_message(*self),
    {
        match self {
            FaultKind::EndstopStuck(Axis::Az) => "AZ endstop stuck",
            FaultKind::EndstopStuck(Axis::El) => "EL endstop stuck",
            FaultKind::TravelLimit(Axis::Az) => "AZ travel limit",
            FaultKind::TravelLimit(Axis::El) => "EL travel limit",
        }
    }
}

/// Operating phase of the rotator, as the motor controller publishes it.
#[derive(Clone, Copy, Debug, PartialEq, Eq, Structural)]
pub enum Phase {
    Homing,
    Running,
    /// Unrecoverable hardware fault.
    Fault(FaultKind),
}

/// What a `GoTo` asks of one axis.
#[derive(Clone, Copy, Debug, PartialEq, Eq, Structural)]
pub enum Goal {
    /// The given angle, in degrees.
    To(Decimal),
    /// 0°.
    Zero,
    /// The axis' current position.
    HoldCurrent,
    /// The axis' present target.
    HoldTarget,
    /// The large positive sentinel (+9999°) used to jog towards the upper limit.
    JogUp,
    /// The large negative sentinel (-9999°) used to jog towards the lower limit.
    JogDown,
}

/// A command for the motor controller.
#[derive(Clone, Copy, Debug, PartialEq, Eq, Structural)]
pub enum RotatorCmd {
    GoTo { az: Goal, el: Goal },
    Stop,
    /// Go to 0°/0° without applying the soft limits.
    Park,
    /// Drop any move and run the homing sequence again.
    Home,
}

/// New soft travel limits, as read from a set-limits command.
#[derive(Clone, Copy, Debug, PartialEq, Eq, Structural)]
pub struct LimitsUpdate {
    pub az_min: Decimal,
    pub az_max: Decimal,
    pub el_min: Decimal,
    pub el_max: Decimal,
}

/// Which of the commands a [`RotatorCmd`] is, without its targets.
#[derive(Clone, Copy, Debug, PartialEq, Eq, Structural)]
pub enum CommandKind {
    GoTo,
    Stop,
    Park,
    Home,
}

pub open spec fn command_kind(c: RotatorCmd) -> CommandKind {
    match c {
        RotatorCmd::GoTo { .. } => CommandKind::GoTo,
        RotatorCmd::Stop => CommandKind::Stop,
        RotatorCmd::Park => CommandKind::Park,
        RotatorCmd::Home => CommandKind::Home,
    }
}

impl RotatorCmd {
    pub fn kind(&self) -> (k: CommandKind)
        ensures
            k == command_kind(*self),
    {
        match self {
            RotatorCmd::GoTo { .. } => CommandKind::GoTo,
            RotatorCmd::Stop => CommandKind::Stop,
            RotatorCmd::Park => CommandKind::Park,
            RotatorCmd::Home => CommandKind::Home,
        }
    }
}

} // verus!
