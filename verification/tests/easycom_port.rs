use polar_pilot::tasks::easycom::{
    decode, fixed_serial_reply, Action, Complaint, SerialEvent, SerialLine, SerialReply,
    LINE_CAPACITY,
};
use polar_pilot::types::{Axis, FaultKind, Goal, LimitsUpdate, Phase, RotatorCmd};
use polar_pilot::util::Decimal;

fn dec(negative: bool, integer: u32, fraction: u32, fraction_digits: u32) -> Decimal {
    Decimal { negative, integer, fraction, fraction_digits }
}

fn to(integer: u32) -> Goal {
    Goal::To(dec(false, integer, 0, 0))
}

fn lines(port: &mut SerialLine, bytes: &[u8]) -> Vec<SerialEvent> {
    bytes.iter().map(|b| port.push(*b)).filter(|e| *e != SerialEvent::Nothing).collect()
}

#[test]
fn version_and_keep_alive() {
    assert_eq!(decode(b"VE", Phase::Running), Action::Reply(SerialReply::Version));
    assert_eq!(decode(b"?", Phase::Running), Action::Reply(SerialReply::KeepAlive));
    assert_eq!(fixed_serial_reply(SerialReply::Version), Some(b"Polar Pilot v0.1\n".to_vec()));
    assert_eq!(fixed_serial_reply(SerialReply::KeepAlive), Some(b"\r".to_vec()));
    assert_eq!(fixed_serial_reply(SerialReply::Position), None);
    assert_eq!(fixed_serial_reply(SerialReply::Limits), None);
}

#[test]
fn stop_words() {
    for line in [&b"SA"[..], b"SE", b"SA SE"] {
        assert_eq!(decode(line, Phase::Running), Action::Command(RotatorCmd::Stop));
    }
    assert_eq!(decode(b"SE SA", Phase::Running), Action::Ignore(Complaint::Unknown));
}

#[test]
fn position_query_and_set() {
    assert_eq!(decode(b"AZ", Phase::Running), Action::Reply(SerialReply::Position));
    assert_eq!(decode(b"C", Phase::Running), Action::Reply(SerialReply::Position));
    assert_eq!(
        decode(b"AZ123.4 EL45", Phase::Running),
        Action::Command(RotatorCmd::GoTo { az: Goal::To(dec(false, 123, 4, 1)), el: to(45) })
    );
    assert_eq!(decode(b"AZ90", Phase::Running), Action::Command(RotatorCmd::GoTo { az: to(90), el: Goal::HoldTarget }));
    assert_eq!(decode(b"AZ EL30", Phase::Running), Action::Command(RotatorCmd::GoTo { az: Goal::HoldTarget, el: to(30) }));
    assert_eq!(decode(b"EL", Phase::Running), Action::Command(RotatorCmd::GoTo { az: Goal::HoldTarget, el: Goal::HoldTarget }));
    assert_eq!(decode(b"AZ EL", Phase::Running), Action::Reply(SerialReply::Position));
}

#[test]
fn single_axis_commands() {
    assert_eq!(decode(b"A180", Phase::Running), Action::Command(RotatorCmd::GoTo { az: to(180), el: Goal::HoldTarget }));
    assert_eq!(decode(b"E45.5", Phase::Running), Action::Command(RotatorCmd::GoTo {
        az: Goal::HoldTarget,
        el: Goal::To(dec(false, 45, 5, 1)),
    }));
    assert_eq!(decode(b"Ax", Phase::Running), Action::Ignore(Complaint::BadAzimuth));
    assert_eq!(decode(b"E", Phase::Running), Action::Ignore(Complaint::Unknown));
    assert_eq!(decode(b"Ex", Phase::Running), Action::Ignore(Complaint::BadElevation));
}

#[test]
fn pair_command() {
    assert_eq!(decode(b"W 10 20", Phase::Running), Action::Command(RotatorCmd::GoTo { az: to(10), el: to(20) }));
    assert_eq!(decode(b"W 10 x", Phase::Running), Action::Ignore(Complaint::BadPairArgs));
    assert_eq!(decode(b"W 10", Phase::Running), Action::Ignore(Complaint::BadPairFormat));
    assert_eq!(decode(b"W 1 2 3", Phase::Running), Action::Ignore(Complaint::BadPairArgs));
}

#[test]
fn limits_query_and_set() {
    assert_eq!(decode(b"LM", Phase::Running), Action::Reply(SerialReply::Limits));
    assert_eq!(
        decode(b"LM 90 270 0 180", Phase::Running),
        Action::SetLimits(LimitsUpdate { az_min: to(90).into_dec(), az_max: to(270).into_dec(), el_min: to(0).into_dec(), el_max: to(180).into_dec() })
    );
    assert_eq!(decode(b"LM 90 270 0", Phase::Running), Action::Ignore(Complaint::BadLimits));
    assert_eq!(decode(b"LM a b c d", Phase::Running), Action::Ignore(Complaint::BadLimits));
}

#[test]
fn unknown_lines_are_ignored() {
    assert_eq!(decode(b"XYZ", Phase::Running), Action::Ignore(Complaint::Unknown));
    assert_eq!(decode(b"ve", Phase::Running), Action::Ignore(Complaint::Unknown));
}

#[test]
fn lines_end_at_cr_or_lf() {
    let mut port = SerialLine::new();
    assert_eq!(lines(&mut port, b"VE\r"), vec![SerialEvent::Line(b"VE".to_vec())]);
    assert_eq!(lines(&mut port, b"AZ10 EL20\r\n"), vec![SerialEvent::Line(b"AZ10 EL20".to_vec())]);
    assert_eq!(lines(&mut port, b"\r\n\n"), vec![]);
    assert_eq!(lines(&mut port, b"SA"), vec![]);
    port.clear();
    assert_eq!(lines(&mut port, b"SE\n"), vec![SerialEvent::Line(b"SE".to_vec())]);
}

#[test]
fn overflow_drops_the_line() {
    let mut port = SerialLine::new();
    let long = vec![b'x'; LINE_CAPACITY];
    assert_eq!(lines(&mut port, &long), vec![]);
    assert_eq!(port.push(b'y'), SerialEvent::Overflow);
    assert_eq!(lines(&mut port, b"VE\n"), vec![SerialEvent::Line(b"VE".to_vec())]);
}

trait IntoDec {
    fn into_dec(self) -> Decimal;
}

impl IntoDec for Goal {
    fn into_dec(self) -> Decimal {
        match self {
            Goal::To(d) => d,
            _ => panic!("not a number"),
        }
    }
}

#[test]
fn overflow_starts_over_every_block() {
    let mut port = SerialLine::new();
    let block = LINE_CAPACITY + 1;
    let mut bytes = vec![b'x'; 2 * block];
    bytes.extend_from_slice(b"AZ1 EL2");
    let events = lines(&mut port, &bytes);
    assert_eq!(events, vec![SerialEvent::Overflow, SerialEvent::Overflow]);
    assert_eq!(port.push(b'\r'), SerialEvent::Line(b"AZ1 EL2".to_vec()));
}

#[test]
fn whole_angles_read_back_on_serial() {
    assert_eq!(decode(b"AZ123 EL45", Phase::Running), Action::Command(RotatorCmd::GoTo { az: to(123), el: to(45) }));
    assert_eq!(
        decode(b"LM 5 355 1 89", Phase::Running),
        Action::SetLimits(LimitsUpdate {
            az_min: dec(false, 5, 0, 0),
            az_max: dec(false, 355, 0, 0),
            el_min: dec(false, 1, 0, 0),
            el_max: dec(false, 89, 0, 0),
        })
    );
}

#[test]
fn fractional_angles_read_back_on_serial() {
    assert_eq!(
        decode(b"AZ123.45 EL6.05", Phase::Running),
        Action::Command(RotatorCmd::GoTo {
            az: Goal::To(dec(false, 123, 45, 2)),
            el: Goal::To(dec(false, 6, 5, 2)),
        })
    );
    assert_eq!(
        decode(b"LM -0.5 359.9 0.25 90", Phase::Running),
        Action::SetLimits(LimitsUpdate {
            az_min: dec(true, 0, 5, 1),
            az_max: dec(false, 359, 9, 1),
            el_min: dec(false, 0, 25, 2),
            el_max: dec(false, 90, 0, 0),
        })
    );
}

#[test]
fn fault_answers_every_serial_line() {
    let k = FaultKind::EndstopStuck(Axis::El);
    let fault = Phase::Fault(k);
    for line in [&b"AZ"[..], b"AZ10 EL20", b"SA", b"VE", b"LM", b"LM 0 360 0 90", b"xyz"] {
        assert_eq!(decode(line, fault), Action::Reply(SerialReply::Fault(k)));
    }
    assert_eq!(
        fixed_serial_reply(SerialReply::Fault(k)),
        Some(b"FAULT: EL endstop stuck\n".to_vec())
    );
    assert_eq!(decode(b"SA", Phase::Homing), Action::Command(RotatorCmd::Stop));
}
