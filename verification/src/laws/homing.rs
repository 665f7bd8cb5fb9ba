//! Laws of the motor controller's homing sequence.

use vstd::prelude::*;
use crate::tasks::motor::{is_homing, transition, Action, Event, Stage};
use crate::types::{Axis, CommandKind, FaultKind};

verus! {

/// A fault is final: nothing moves the controller out of it.
pub proof fn fault_is_final(k: FaultKind, e: Event)
    ensures
        transition(Stage::Halted(k), e) == (Stage::Halted(k), Action::Idle),
{
}

/// Only a running controller carries out commands: in any other stage a
/// command never asks for a move.
pub proof fn commands_wait_for_running(s: Stage, c: CommandKind)
    requires
        s != Stage::Running,
    ensures
        !(transition(s, Event::Command(c)).1 is Apply),
{
}

/// While an axis is being homed, a go-to, park or home command is dropped:
/// the stage stays as it is and nothing is done.
pub proof fn homing_drops_commands(s: Stage, c: CommandKind)
    requires
        is_homing(s),
        c != CommandKind::Stop,
    ensures
        transition(s, Event::Command(c)) == (s, Action::Idle),
{
}

/// A stop is honoured during homing: the pulses stop, the drivers are
/// disabled and homing is abandoned.
pub proof fn stop_halts_homing(s: Stage)
    requires
        is_homing(s),
    ensures
        transition(s, Event::Command(CommandKind::Stop)) == (Stage::Stopped, Action::HaltHoming),
{
}

/// Once homing was stopped, only a `Home` command starts it again; every
/// other event changes nothing.
pub proof fn stopped_homing_waits_for_home(e: Event)
    ensures
        transition(Stage::Stopped, e) == (if e == Event::Command(CommandKind::Home) {
            (Stage::Start, Action::Rehome)
        } else {
            (Stage::Stopped, Action::Idle)
        }),
{
}

/// The controller starts running only when the elevation endstop is
/// found during the elevation approach.
pub proof fn running_follows_elevation_home(s: Stage, e: Event)
    requires
        s != Stage::Running,
        transition(s, e).0 == Stage::Running,
    ensures
        s == Stage::Approach(Axis::El),
        e matches Event::ApproachTick { closed, .. } && closed,
{
}

/// Elevation homing starts only once azimuth found its endstop.
pub proof fn elevation_follows_azimuth(s: Stage, e: Event)
    requires
        s != Stage::Check(Axis::El),
        transition(s, e).0 == Stage::Check(Axis::El),
    ensures
        s == Stage::Approach(Axis::Az),
        e matches Event::ApproachTick { closed, .. } && closed,
{
}

/// A fault names the axis being homed: a stuck endstop comes from backing
/// off or the sample after it, a travel limit from an approach.
pub proof fn faults_name_the_homing_axis(s: Stage, e: Event, k: FaultKind)
    requires
        !(s is Halted),
        transition(s, e).0 == Stage::Halted(k),
    ensures
        (s matches Stage::BackOff(a) && k == FaultKind::EndstopStuck(a)) || (s matches Stage::Recheck(
            a,
        ) && k == FaultKind::EndstopStuck(a)) || (s matches Stage::Approach(a) && k
            == FaultKind::TravelLimit(a)),
{
}

/// With both endstops open at the start and found during the approaches,
/// homing ends in the running stage.
pub proof fn homing_reaches_running(late1: bool, late2: bool)
    ensures
        ({
            let s1 = transition(Stage::Start, Event::Begin).0;
            let s2 = transition(s1, Event::Endstop(false)).0;
            let s3 = transition(s2, Event::ApproachTick { closed: true, past_deadline: late1 }).0;
            let s4 = transition(s3, Event::Endstop(false)).0;
            transition(s4, Event::ApproachTick { closed: true, past_deadline: late2 }).0
                == Stage::Running
        }),
{
}

/// A `Home` command while running starts homing over.
pub proof fn home_command_rehomes()
    ensures
        transition(Stage::Running, Event::Command(CommandKind::Home)) == (
            Stage::Start,
            Action::Rehome,
        ),
{
}

/// Homing faults when it must, on either axis: an approach that has used
/// up its travel budget without finding the endstop stops with a travel
/// limit; backing off that runs out of time with the switch still closed,
/// or a switch still closed once backing off stopped, stops with a stuck
/// endstop.
pub proof fn homing_faults_when_due(a: Axis)
    ensures
        transition(Stage::Approach(a), Event::ApproachTick { closed: false, past_deadline: true })
            == (Stage::Halted(FaultKind::TravelLimit(a)), Action::Fault(FaultKind::TravelLimit(a))),
        transition(Stage::BackOff(a), Event::BackOffTick { closed: true, past_deadline: true })
            == (Stage::Halted(FaultKind::EndstopStuck(a)), Action::Fault(
            FaultKind::EndstopStuck(a),
        )),
        transition(Stage::Recheck(a), Event::Endstop(true)) == (
            Stage::Halted(FaultKind::EndstopStuck(a)),
            Action::Fault(FaultKind::EndstopStuck(a)),
        ),
{
}

/// Finding the endstop ends an axis' approach, whatever the time: azimuth
/// goes on to elevation, elevation starts running.
pub proof fn endstop_ends_the_approach(late: bool)
    ensures
        transition(Stage::Approach(Axis::Az), Event::ApproachTick { closed: true, past_deadline: late })
            == (Stage::Check(Axis::El), Action::AzHomed),
        transition(Stage::Approach(Axis::El), Event::ApproachTick { closed: true, past_deadline: late })
            == (Stage::Running, Action::HomingDone),
{
}

} // verus!
