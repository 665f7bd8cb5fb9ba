//! The motor controller's sequencing: homing both axes against their
//! endstops, faults, and which commands are taken when.
//!
//! The controller is a state machine.  The task that owns the stepper
//! hardware feeds it what it observes (endstop levels, timeouts, commands)
//! and carries out the action that each step returns.

use vstd::prelude::*;

use crate::types::{Axis, CommandKind, FaultKind, Phase};

verus! {

/// Step pulse frequency of both axes, in hertz.
pub const STEP_HZ: u32 = 4_000;

/// Full steps per motor revolution.
pub const STEPS_PER_REV: u32 = 200;

/// Gear reduction between motor and axis.
pub const GEAR_RATIO: u32 = 54;

/// Microsteps per full step, azimuth driver.
pub const AZ_MICROSTEPS: u32 = 32;

/// Microsteps per full step, elevation driver.
pub const EL_MICROSTEPS: u32 = 32;

/// Period of the running loop, in milliseconds.
pub const MOTOR_TICK_MS: u64 = 1;

/// How long backing off an endstop may take, in milliseconds.
pub const BACKOFF_TIMEOUT_MS: u64 = 3_000;

/// Travel budget of the azimuth approach, in milliseconds (380° at about 4°/s).
pub const MAX_AZ_HOME_MS: u64 = 95_000;

/// Travel budget of the elevation approach, in milliseconds (100° at about 4°/s).
pub const MAX_EL_HOME_MS: u64 = 28_000;

/// Where the controller is.
#[derive(Clone, Copy, Debug, PartialEq, Eq, Structural)]
pub enum Stage {
    /// About to (re)start homing.
    Start,
    /// Sampling the axis' endstop before moving it.
    Check(Axis),
    /// Driving the axis away from its endstop until the switch releases.
    BackOff(Axis),
    /// Sampling the endstop again once backing off has stopped.
    Recheck(Axis),
    /// Driving the axis towards its endstop.
    Approach(Axis),
    /// Homed; taking commands.
    Running,
    /// Homing was stopped on request; not homed, waiting for a `Home`.
    Stopped,
    /// Stopped for good after a fault.
    Halted(FaultKind),
}

/// What the hardware side observed.
#[derive(Clone, Copy, Debug, PartialEq, Eq, Structural)]
pub enum Event {
    /// The hardware is ready to home (pending commands dropped).
    Begin,
    /// A sample of the endstop; `true` when the switch is closed.
    Endstop(bool),
    /// One back-off tick: the endstop sample and whether the back-off time
    /// has run out.
    BackOffTick { closed: bool, past_deadline: bool },
    /// One approach tick: the endstop sample and whether the travel
    /// budget has run out.
    ApproachTick { closed: bool, past_deadline: bool },
    /// A command of this kind arrived.
    Command(CommandKind),
}

/// What the hardware side must do next.
#[derive(Clone, Copy, Debug, PartialEq, Eq, Structural)]
pub enum Action {
    /// Nothing.
    Idle,
    /// Drop pending commands, enable the drivers, zero positions and targets.
    PrepareHoming,
    /// Drive the axis away from its endstop (direction high) and arm the
    /// back-off time, [`BACKOFF_TIMEOUT_MS`].
    BackOff(Axis),
    /// Keep backing off; wait one tick.
    KeepBackingOff,
    /// Stop the axis' pulses; its endstop is sampled again.
    EndBackOff(Axis),
    /// Drive the axis towards its endstop (direction low) and arm its
    /// travel budget.
    Approach(Axis),
    /// Publish the homing state and wait one tick.
    KeepApproaching,
    /// Stop the azimuth pulses; azimuth position and target become 0°.
    AzHomed,
    /// Stop the elevation pulses; elevation position and target become 0°;
    /// disable the drivers and start running.
    HomingDone,
    /// Stop the pulses, disable the drivers and publish the fault.
    Fault(FaultKind),
    /// Carry out the motion command that arrived (go to, park or stop).
    Apply(CommandKind),
    /// Stop both axes' pulses and disable the drivers; homing starts over.
    Rehome,
    /// Stop both axes' pulses and disable the drivers; homing is abandoned.
    HaltHoming,
}

/// The stages in which an axis is being homed.
pub open spec fn is_homing(s: Stage) -> bool {
    s is Check || s is BackOff || s is Recheck || s is Approach
}

/// The controller's phase as published to the rest of the firmware.
pub open spec fn stage_phase(s: Stage) -> Phase {
    match s {
        Stage::Running => Phase::Running,
        Stage::Halted(k) => Phase::Fault(k),
        _ => Phase::Homing,
    }
}

/// One step of the controller: the next stage and the action to take.
/// While an axis is being homed a `Stop` abandons homing and any other
/// command is dropped; commands are carried out only while running.
/// Events that do not belong to the current stage change nothing.
pub open spec fn transition(s: Stage, e: Event) -> (Stage, Action) {
    match (s, e) {
        (Stage::Start, Event::Begin) => (Stage::Check(Axis::Az), Action::PrepareHoming),
        (Stage::Check(a), Event::Endstop(closed)) => if closed {
            (Stage::BackOff(a), Action::BackOff(a))
        } else {
            (Stage::Approach(a), Action::Approach(a))
        },
        (Stage::BackOff(a), Event::BackOffTick { closed, past_deadline }) => if !closed {
            (Stage::Recheck(a), Action::EndBackOff(a))
        } else if past_deadline {
            (Stage::Halted(FaultKind::EndstopStuck(a)), Action::Fault(FaultKind::EndstopStuck(a)))
        } else {
            (Stage::BackOff(a), Action::KeepBackingOff)
        },
        (Stage::Recheck(a), Event::Endstop(closed)) => if closed {
            (Stage::Halted(FaultKind::EndstopStuck(a)), Action::Fault(FaultKind::EndstopStuck(a)))
        } else {
            (Stage::Approach(a), Action::Approach(a))
        },
        (Stage::Approach(a), Event::ApproachTick { closed, past_deadline }) => if closed {
            match a {
                Axis::Az => (Stage::Check(Axis::El), Action::AzHomed),
                Axis::El => (Stage::Running, Action::HomingDone),
            }
        } else if past_deadline {
            (Stage::Halted(FaultKind::TravelLimit(a)), Action::Fault(FaultKind::TravelLimit(a)))
        } else {
            (Stage::Approach(a), Action::KeepApproaching)
        },
        (Stage::Running, Event::Command(c)) => match c {
            CommandKind::Home => (Stage::Start, Action::Rehome),
            _ => (Stage::Running, Action::Apply(c)),
        },
        (Stage::Stopped, Event::Command(CommandKind::Home)) => (Stage::Start, Action::Rehome),
        (_, Event::Command(CommandKind::Stop)) => if is_homing(s) {
            (Stage::Stopped, Action::HaltHoming)
        } else {
            (s, Action::Idle)
        },
        _ => (s, Action::Idle),
    }
}

/// The motor controller's sequencing state.
pub struct MotorControl {
    stage: Stage,
}

impl View for MotorControl {
    type V = Stage;

    closed spec fn view(&self) -> Stage {
        self.stage
    }
}

impl MotorControl {
    /// A controller that has not homed yet.
    pub fn new() -> (r: Self)
        ensures
            r@ == Stage::Start,
    {
        MotorControl { stage: Stage::Start }
    }

    pub fn stage(&self) -> (s: Stage)
        ensures
            s == self@,
    {
        self.stage
    }

    /// The phase to publish.
    pub fn phase(&self) -> (p: Phase)
        ensures
            p == stage_phase(self@),
    {
        match self.stage {
            Stage::Running => Phase::Running,
            Stage::Halted(k) => Phase::Fault(k),
            _ => Phase::Homing,
        }
    }

    /// Feed one observation; the action to carry out.
    pub fn step(&mut self, e: Event) -> (a: Action)
        ensures
            (final(self)@, a) == transition(old(self)@, e),
    {
        let s = self.stage;
        let homing = match s {
            Stage::Check(_) | Stage::BackOff(_) | Stage::Recheck(_) | Stage::Approach(_) => true,
            _ => false,
        };
        let (next, action) = match (s, e) {
            (Stage::Start, Event::Begin) => (Stage::Check(Axis::Az), Action::PrepareHoming),
            (Stage::Check(a), Event::Endstop(closed)) => if closed {
                (Stage::BackOff(a), Action::BackOff(a))
            } else {
                (Stage::Approach(a), Action::Approach(a))
            },
            (Stage::BackOff(a), Event::BackOffTick { closed, past_deadline }) => if !closed {
                (Stage::Recheck(a), Action::EndBackOff(a))
            } else if past_deadline {
                (
                    Stage::Halted(FaultKind::EndstopStuck(a)),
                    Action::Fault(FaultKind::EndstopStuck(a)),
                )
            } else {
                (Stage::BackOff(a), Action::KeepBackingOff)
            },
            (Stage::Recheck(a), Event::Endstop(closed)) => if closed {
                (
                    Stage::Halted(FaultKind::EndstopStuck(a)),
                    Action::Fault(FaultKind::EndstopStuck(a)),
                )
            } else {
                (Stage::Approach(a), Action::Approach(a))
            },
            (Stage::Approach(a), Event::ApproachTick { closed, past_deadline }) => if closed {
                match a {
                    Axis::Az => (Stage::Check(Axis::El), Action::AzHomed),
                    Axis::El => (Stage::Running, Action::HomingDone),
                }
            } else if past_deadline {
                (
                    Stage::Halted(FaultKind::TravelLimit(a)),
                    Action::Fault(FaultKind::TravelLimit(a)),
                )
            } else {
                (Stage::Approach(a), Action::KeepApproaching)
            },
            (Stage::Running, Event::Command(c)) => match c {
                CommandKind::Home => (Stage::Start, Action::Rehome),
                _ => (Stage::Running, Action::Apply(c)),
            },
            (Stage::Stopped, Event::Command(CommandKind::Home)) => (Stage::Start, Action::Rehome),
            (_, Event::Command(CommandKind::Stop)) => if homing {
                (Stage::Stopped, Action::HaltHoming)
            } else {
                (s, Action::Idle)
            },
            _ => (s, Action::Idle),
        };
        self.stage = next;
        action
    }
}

/// The travel budget of an axis' approach, in milliseconds.
pub fn approach_budget_ms(axis: Axis) -> (ms: u64)
    ensures
        ms == (match axis {
            Axis::Az => MAX_AZ_HOME_MS,
            Axis::El => MAX_EL_HOME_MS,
        }),
{
    match axis {
        Axis::Az => MAX_AZ_HOME_MS,
        Axis::El => MAX_EL_HOME_MS,
    }
}

} // verus!
