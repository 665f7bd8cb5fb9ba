use polar_pilot::tasks::rotctld::{
    fixed_reply, respond, LineBuffer, LineEvent, Outcome, Reply, Request, LINE_CAPACITY,
};
use polar_pilot::tasks::rotctld::classify;
use polar_pilot::types::{Axis, FaultKind, Goal, LimitsUpdate, Phase, RotatorCmd};
use polar_pilot::util::Decimal;

fn dec(negative: bool, integer: u32, fraction: u32, fraction_digits: u32) -> Decimal {
    Decimal { negative, integer, fraction, fraction_digits }
}

fn feed(buf: &mut LineBuffer, bytes: &[u8]) -> Vec<LineEvent> {
    bytes.iter().map(|b| buf.push(*b)).filter(|e| *e != LineEvent::Pending).collect()
}

fn reply_only(reply: Reply) -> Outcome {
    Outcome { reply, command: None, limits: None }
}

#[test]
fn get_position_reports_position() {
    assert_eq!(respond(b"p", Phase::Running), reply_only(Reply::Position));
    assert_eq!(respond(b"\\get_pos", Phase::Homing), reply_only(Reply::Position));
}

#[test]
fn set_position_sends_goto() {
    let o = respond(b"P 123.4 45", Phase::Running);
    assert_eq!(o.reply, Reply::Ack);
    assert_eq!(
        o.command,
        Some(RotatorCmd::GoTo { az: Goal::To(dec(false, 123, 4, 1)), el: Goal::To(dec(false, 45, 0, 0)) })
    );
    let o = respond(b"\\set_pos 10 -2.5", Phase::Running);
    assert_eq!(
        o.command,
        Some(RotatorCmd::GoTo { az: Goal::To(dec(false, 10, 0, 0)), el: Goal::To(dec(true, 2, 5, 1)) })
    );
}

#[test]
fn set_position_rejects_bad_arguments() {
    assert_eq!(respond(b"P 10", Phase::Running), reply_only(Reply::Reject));
    assert_eq!(respond(b"P abc 10", Phase::Running), reply_only(Reply::Reject));
    assert_eq!(respond(b"P 10  20", Phase::Running).reply, Reply::Ack);
    assert_eq!(respond(b"P 10 20 30", Phase::Running), reply_only(Reply::Reject));
    assert_eq!(respond(b"P ", Phase::Running), reply_only(Reply::Reject));
}

#[test]
fn stop_sends_stop() {
    assert_eq!(
        respond(b"S", Phase::Running),
        Outcome { reply: Reply::Ack, command: Some(RotatorCmd::Stop), limits: None }
    );
    assert_eq!(respond(b"\\stop", Phase::Running).command, Some(RotatorCmd::Stop));
}

#[test]
fn limits_are_read_and_set() {
    assert_eq!(respond(b"l", Phase::Running), reply_only(Reply::Limits));
    assert_eq!(respond(b"\\get_limits", Phase::Running), reply_only(Reply::Limits));
    let o = respond(b"L 90 270 0 180", Phase::Running);
    assert_eq!(o.reply, Reply::Ack);
    assert_eq!(o.command, None);
    assert_eq!(
        o.limits,
        Some(LimitsUpdate {
            az_min: dec(false, 90, 0, 0),
            az_max: dec(false, 270, 0, 0),
            el_min: dec(false, 0, 0, 0),
            el_max: dec(false, 180, 0, 0),
        })
    );
    assert!(respond(b"\\set_limits 0 360 5 180", Phase::Running).limits.is_some());
}

#[test]
fn bad_limits_are_rejected() {
    assert_eq!(respond(b"L 0 360 5", Phase::Running), reply_only(Reply::Reject));
    assert_eq!(respond(b"L 0 360 5 180 9", Phase::Running), reply_only(Reply::Reject));
    assert_eq!(respond(b"L a b c d", Phase::Running), reply_only(Reply::Reject));
}

#[test]
fn limits_are_refused_during_a_fault() {
    let k = FaultKind::EndstopStuck(Axis::Az);
    let fault = Phase::Fault(k);
    assert_eq!(respond(b"L 0 360 0 90", fault), reply_only(Reply::Fault(k)));
    assert_eq!(respond(b"l", fault), reply_only(Reply::Fault(k)));
}

#[test]
fn move_jogs_one_axis() {
    let up = respond(b"M 2 50", Phase::Running);
    assert_eq!(up.command, Some(RotatorCmd::GoTo { az: Goal::HoldCurrent, el: Goal::JogUp }));
    let down = respond(b"M 4 50", Phase::Running);
    assert_eq!(down.command, Some(RotatorCmd::GoTo { az: Goal::HoldCurrent, el: Goal::JogDown }));
    let left = respond(b"\\move 8 1", Phase::Running);
    assert_eq!(left.command, Some(RotatorCmd::GoTo { az: Goal::JogDown, el: Goal::HoldCurrent }));
    let right = respond(b"M 16", Phase::Running);
    assert_eq!(right.command, Some(RotatorCmd::GoTo { az: Goal::JogUp, el: Goal::HoldCurrent }));
    assert_eq!(respond(b"M 3 1", Phase::Running), reply_only(Reply::Reject));
    assert_eq!(respond(b"M x", Phase::Running), reply_only(Reply::Reject));
}

#[test]
fn reset_parks_at_zero() {
    let park = Some(RotatorCmd::GoTo { az: Goal::Zero, el: Goal::Zero });
    assert_eq!(respond(b"R", Phase::Running).command, park);
    assert_eq!(respond(b"R 1", Phase::Running).command, park);
    assert_eq!(respond(b"\\reset", Phase::Running).command, park);
    assert_eq!(respond(b"\\reset 1", Phase::Running).command, park);
}

#[test]
fn informational_commands() {
    assert_eq!(respond(b"1", Phase::Running), reply_only(Reply::Capabilities));
    assert_eq!(respond(b"\\dump_caps", Phase::Running), reply_only(Reply::Capabilities));
    assert_eq!(respond(b"_", Phase::Running), reply_only(Reply::Info));
    assert_eq!(respond(b"\\get_info", Phase::Running), reply_only(Reply::Info));
    assert_eq!(respond(b"\\dump_state", Phase::Running), reply_only(Reply::StateDump));
}

#[test]
fn quit_disconnects() {
    assert_eq!(respond(b"q", Phase::Running), reply_only(Reply::Disconnect));
    assert_eq!(respond(b"\\quit", Phase::Running), reply_only(Reply::Disconnect));
}

#[test]
fn unknown_and_empty_lines_are_rejected() {
    assert_eq!(respond(b"", Phase::Running), reply_only(Reply::NotImplemented));
    assert_eq!(respond(b"   ", Phase::Running), reply_only(Reply::NotImplemented));
    assert_eq!(respond(b" \t\r", Phase::Homing), reply_only(Reply::NotImplemented));
    let fault = Phase::Fault(FaultKind::TravelLimit(Axis::Az));
    assert_eq!(respond(b"", fault), reply_only(Reply::NotImplemented));
    assert_eq!(respond(b"w", Phase::Running), reply_only(Reply::Reject));
    assert_eq!(respond(b"P", Phase::Running), reply_only(Reply::Reject));
    assert_eq!(respond(b"pp", Phase::Running), reply_only(Reply::Reject));
    assert_eq!(respond(b" p", Phase::Running), reply_only(Reply::Reject));
}

#[test]
fn invalid_utf8_is_rejected() {
    assert_eq!(classify(b"p\xff"), Request::Unknown);
    assert_eq!(classify(b"P 1 \xff"), Request::Unknown);
    assert_eq!(classify(b"\xff"), Request::Unknown);
    assert_eq!(respond(b"L \xff", Phase::Running), reply_only(Reply::Reject));
    assert_eq!(respond(b"\xff", Phase::Running), reply_only(Reply::Reject));
}

#[test]
fn fault_refuses_motion() {
    let k = FaultKind::TravelLimit(Axis::El);
    let fault = Phase::Fault(k);
    for line in [&b"p"[..], b"P 10 20", b"S", b"M 2 1", b"R", b"\\get_pos", b"P x"] {
        assert_eq!(respond(line, fault), reply_only(Reply::Fault(k)));
    }
    for line in [&b"q"[..], b"_", b"l", b"1", b"\\dump_state", b"L 0 360 0 90", b"w"] {
        assert_eq!(respond(line, fault), reply_only(Reply::Fault(k)));
    }
}

#[test]
fn fixed_reply_texts() {
    assert_eq!(fixed_reply(Reply::Ack), Some(b"RPRT 0\n".to_vec()));
    assert_eq!(fixed_reply(Reply::Reject), Some(b"RPRT -1\n".to_vec()));
    assert_eq!(fixed_reply(Reply::NotImplemented), Some(b"RPRT -8\n".to_vec()));
    assert_eq!(fixed_reply(Reply::Info), Some(b"Model: Polar Pilot\n".to_vec()));
    assert_eq!(
        fixed_reply(Reply::Fault(FaultKind::EndstopStuck(Axis::Az))),
        Some(b"FAULT: AZ endstop stuck\nRPRT -9\n".to_vec())
    );
    assert_eq!(
        fixed_reply(Reply::Fault(FaultKind::TravelLimit(Axis::El))),
        Some(b"FAULT: EL travel limit\nRPRT -9\n".to_vec())
    );
    assert_eq!(fixed_reply(Reply::Position), None);
    assert_eq!(fixed_reply(Reply::Limits), None);
    assert_eq!(fixed_reply(Reply::Disconnect), None);
}

#[test]
fn lines_end_at_newline() {
    let mut buf = LineBuffer::new();
    assert_eq!(feed(&mut buf, b"p\n"), vec![LineEvent::Line(b"p".to_vec())]);
    assert_eq!(feed(&mut buf, b"\\get_pos\r\n"), vec![LineEvent::Line(b"\\get_pos".to_vec())]);
    assert_eq!(feed(&mut buf, b"\n"), vec![LineEvent::Line(Vec::new())]);
    assert_eq!(feed(&mut buf, b"a\r\r\n"), vec![LineEvent::Line(b"a\r".to_vec())]);
}

#[test]
fn pipelined_and_split_lines() {
    let mut buf = LineBuffer::new();
    assert_eq!(
        feed(&mut buf, b"p\nS\nP 1 2\n"),
        vec![
            LineEvent::Line(b"p".to_vec()),
            LineEvent::Line(b"S".to_vec()),
            LineEvent::Line(b"P 1 2".to_vec()),
        ]
    );
    assert_eq!(feed(&mut buf, b"P 10"), vec![]);
    assert_eq!(feed(&mut buf, b" 20\n"), vec![LineEvent::Line(b"P 10 20".to_vec())]);
}

#[test]
fn oversized_line_overflows() {
    let mut buf = LineBuffer::new();
    let long = vec![b'x'; LINE_CAPACITY];
    assert_eq!(feed(&mut buf, &long), vec![]);
    assert_eq!(buf.push(b'y'), LineEvent::Overflow);
    let mut buf = LineBuffer::new();
    let mut exact = vec![b'x'; LINE_CAPACITY];
    exact.push(b'\n');
    assert_eq!(feed(&mut buf, &exact), vec![LineEvent::Line(vec![b'x'; LINE_CAPACITY])]);
}

#[test]
fn long_and_short_names_agree() {
    let pairs: [(&[u8], &[u8]); 4] =
        [(b"P ", b"\\set_pos "), (b"L ", b"\\set_limits "), (b"M ", b"\\move "), (b"R ", b"\\reset ")];
    let args: [&[u8]; 7] = [b"1 2", b"10.5 -3", b"x", b"", b"0 360 0 90", b"8 1", b"\xff"];
    for (short, long) in pairs {
        for a in args {
            let s = [short, a].concat();
            let l = [long, a].concat();
            assert_eq!(classify(&s), classify(&l));
        }
    }
}

#[test]
fn whole_angles_read_back() {
    let o = respond(b"P 123 45", Phase::Running);
    assert_eq!(
        o.command,
        Some(RotatorCmd::GoTo {
            az: Goal::To(dec(false, 123, 0, 0)),
            el: Goal::To(dec(false, 45, 0, 0)),
        })
    );
    let o = respond(b"L 5 355 1 89", Phase::Homing);
    assert_eq!(
        o.limits,
        Some(LimitsUpdate {
            az_min: dec(false, 5, 0, 0),
            az_max: dec(false, 355, 0, 0),
            el_min: dec(false, 1, 0, 0),
            el_max: dec(false, 89, 0, 0),
        })
    );
    assert_eq!(o.reply, Reply::Ack);
}

#[test]
fn line_keeps_bytes_up_to_capacity() {
    let mut buf = LineBuffer::new();
    let bytes: Vec<u8> = (0..LINE_CAPACITY + 3).map(|i| b'a' + (i % 26) as u8).collect();
    let events = feed(&mut buf, &bytes);
    assert_eq!(events, vec![LineEvent::Overflow; 3]);
    assert_eq!(buf.push(b'\n'), LineEvent::Line(bytes[..LINE_CAPACITY].to_vec()));
}

#[test]
fn user_guide_limit_examples() {
    let whole = |v: u32| dec(false, v, 0, 0);
    let cases: [(&[u8], [u32; 4]); 3] = [
        (b"L 90 270 0 180", [90, 270, 0, 180]),
        (b"L 0 360 5 180", [0, 360, 5, 180]),
        (b"L 0 360 0 180", [0, 360, 0, 180]),
    ];
    for (line, [a, b, c, d]) in cases {
        let o = respond(line, Phase::Running);
        assert_eq!(o.reply, Reply::Ack);
        assert_eq!(o.command, None);
        assert_eq!(
            o.limits,
            Some(LimitsUpdate { az_min: whole(a), az_max: whole(b), el_min: whole(c), el_max: whole(d) })
        );
    }
    assert_eq!(respond(b"L 90 270 0", Phase::Running), reply_only(Reply::Reject));
}

#[test]
fn fractional_angles_read_back() {
    let o = respond(b"P 123.45 -6.05", Phase::Running);
    assert_eq!(
        o.command,
        Some(RotatorCmd::GoTo {
            az: Goal::To(dec(false, 123, 45, 2)),
            el: Goal::To(dec(true, 6, 5, 2)),
        })
    );
    let o = respond(b"L -0.5 359.999999 0.1 90.0", Phase::Running);
    assert_eq!(
        o.limits,
        Some(LimitsUpdate {
            az_min: dec(true, 0, 5, 1),
            az_max: dec(false, 359, 999999, 6),
            el_min: dec(false, 0, 1, 1),
            el_max: dec(false, 90, 0, 1),
        })
    );
}
