use polar_pilot::tasks::motor::{approach_budget_ms, Action, Event, MotorControl, Stage};
use polar_pilot::types::{Axis, CommandKind, FaultKind, Goal, Phase, RotatorCmd};

fn tick(closed: bool, past_deadline: bool) -> Event {
    Event::ApproachTick { closed, past_deadline }
}

#[test]
fn clean_homing_reaches_running() {
    let mut m = MotorControl::new();
    assert_eq!(m.phase(), Phase::Homing);
    assert_eq!(m.step(Event::Begin), Action::PrepareHoming);
    assert_eq!(m.step(Event::Endstop(false)), Action::Approach(Axis::Az));
    assert_eq!(m.step(tick(false, false)), Action::KeepApproaching);
    assert_eq!(m.step(tick(true, false)), Action::AzHomed);
    assert_eq!(m.stage(), Stage::Check(Axis::El));
    assert_eq!(m.step(Event::Endstop(false)), Action::Approach(Axis::El));
    assert_eq!(m.step(tick(true, true)), Action::HomingDone);
    assert_eq!(m.stage(), Stage::Running);
    assert_eq!(m.phase(), Phase::Running);
}

#[test]
fn backing_off_a_closed_endstop() {
    let mut m = MotorControl::new();
    m.step(Event::Begin);
    assert_eq!(m.step(Event::Endstop(true)), Action::BackOff(Axis::Az));
    assert_eq!(m.step(Event::BackOffTick { closed: true, past_deadline: false }), Action::KeepBackingOff);
    assert_eq!(m.step(Event::BackOffTick { closed: false, past_deadline: false }), Action::EndBackOff(Axis::Az));
    assert_eq!(m.stage(), Stage::Recheck(Axis::Az));
    assert_eq!(m.step(Event::Endstop(false)), Action::Approach(Axis::Az));
}

#[test]
fn stuck_endstop_faults() {
    let mut m = MotorControl::new();
    m.step(Event::Begin);
    m.step(Event::Endstop(true));
    let k = FaultKind::EndstopStuck(Axis::Az);
    assert_eq!(m.step(Event::BackOffTick { closed: true, past_deadline: true }), Action::Fault(k));
    assert_eq!(m.phase(), Phase::Fault(k));
    assert_eq!(m.step(Event::Begin), Action::Idle);
    assert_eq!(m.step(Event::Command(CommandKind::Home)), Action::Idle);
    assert_eq!(m.phase(), Phase::Fault(k));
}

#[test]
fn endstop_still_closed_after_backoff_faults() {
    let mut m = MotorControl::new();
    m.step(Event::Begin);
    m.step(Event::Endstop(false));
    m.step(tick(true, false));
    m.step(Event::Endstop(true));
    let k = FaultKind::EndstopStuck(Axis::El);
    assert_eq!(m.step(Event::BackOffTick { closed: false, past_deadline: true }), Action::EndBackOff(Axis::El));
    assert_eq!(m.step(Event::Endstop(true)), Action::Fault(k));
}

#[test]
fn travel_limit_faults() {
    let mut m = MotorControl::new();
    m.step(Event::Begin);
    m.step(Event::Endstop(false));
    let k = FaultKind::TravelLimit(Axis::Az);
    assert_eq!(m.step(tick(false, true)), Action::Fault(k));
    assert_eq!(m.stage(), Stage::Halted(k));
}

#[test]
fn commands_only_while_running() {
    let mut m = MotorControl::new();
    assert_eq!(m.step(Event::Command(CommandKind::Stop)), Action::Idle);
    m.step(Event::Begin);
    assert_eq!(m.step(Event::Command(CommandKind::Park)), Action::Idle);
    m.step(Event::Endstop(false));
    m.step(tick(true, false));
    m.step(Event::Endstop(false));
    m.step(tick(true, false));
    let go = RotatorCmd::GoTo { az: Goal::Zero, el: Goal::JogUp };
    assert_eq!(m.step(Event::Command(go.kind())), Action::Apply(CommandKind::GoTo));
    assert_eq!(m.step(Event::Command(RotatorCmd::Stop.kind())), Action::Apply(CommandKind::Stop));
    assert_eq!(m.step(Event::Command(RotatorCmd::Park.kind())), Action::Apply(CommandKind::Park));
    assert_eq!(m.step(Event::Command(RotatorCmd::Home.kind())), Action::Rehome);
    assert_eq!(m.stage(), Stage::Start);
    assert_eq!(m.phase(), Phase::Homing);
}

#[test]
fn approach_budgets() {
    assert_eq!(approach_budget_ms(Axis::Az), 95_000);
    assert_eq!(approach_budget_ms(Axis::El), 28_000);
}

#[test]
fn stop_during_homing_halts_it() {
    let mut m = MotorControl::new();
    m.step(Event::Begin);
    m.step(Event::Endstop(false));
    assert_eq!(m.step(Event::Command(CommandKind::GoTo)), Action::Idle);
    assert_eq!(m.stage(), Stage::Approach(Axis::Az));
    assert_eq!(m.step(Event::Command(CommandKind::Stop)), Action::HaltHoming);
    assert_eq!(m.stage(), Stage::Stopped);
    assert_eq!(m.phase(), Phase::Homing);
    assert_eq!(m.step(tick(true, false)), Action::Idle);
    assert_eq!(m.step(Event::Command(CommandKind::GoTo)), Action::Idle);
    assert_eq!(m.step(Event::Command(CommandKind::Home)), Action::Rehome);
    assert_eq!(m.stage(), Stage::Start);
    assert_eq!(m.step(Event::Begin), Action::PrepareHoming);
}

#[test]
fn stop_while_backing_off_halts_homing() {
    let mut m = MotorControl::new();
    m.step(Event::Begin);
    m.step(Event::Endstop(true));
    assert_eq!(m.step(Event::Command(CommandKind::Park)), Action::Idle);
    assert_eq!(m.step(Event::Command(CommandKind::Stop)), Action::HaltHoming);
    assert_eq!(m.stage(), Stage::Stopped);
}
