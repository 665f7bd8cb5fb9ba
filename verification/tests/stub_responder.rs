use polar_pilot::rotctld::{
    format_u32, parse_f32, parse_two_floats, process_command, stub_reply_bytes, trim, LineCollector,
    StubReply, STUB_LINE_CAPACITY,
};
use polar_pilot::util::Decimal;

fn dec(negative: bool, integer: u32, fraction: u32, fraction_digits: u32) -> Decimal {
    Decimal { negative, integer, fraction, fraction_digits }
}

#[test]
fn stub_commands() {
    assert_eq!(process_command(b"p"), StubReply::Position);
    assert_eq!(process_command(b" \\get_pos\r"), StubReply::Position);
    assert_eq!(process_command(b"S"), StubReply::Stopped);
    assert_eq!(process_command(b"\\stop"), StubReply::Stopped);
    assert_eq!(process_command(b"_"), StubReply::Info);
    assert_eq!(process_command(b"q"), StubReply::Close);
    assert_eq!(process_command(b"Q"), StubReply::Close);
    assert_eq!(process_command(b"\\dump_state"), StubReply::StateDump);
    assert_eq!(process_command(b"x"), StubReply::Rejected);
    assert_eq!(process_command(b""), StubReply::Rejected);
}

#[test]
fn stub_set_position() {
    assert_eq!(
        process_command(b"P 10.5 20"),
        StubReply::PositionSet(dec(false, 10, 5, 1), dec(false, 20, 0, 0))
    );
    assert_eq!(
        process_command(b"\\set_pos 1 2\r"),
        StubReply::PositionSet(dec(false, 1, 0, 0), dec(false, 2, 0, 0))
    );
    assert_eq!(process_command(b"P 10"), StubReply::Rejected);
    assert_eq!(process_command(b"P a b"), StubReply::Rejected);
}

#[test]
fn stub_reply_texts() {
    assert_eq!(stub_reply_bytes(StubReply::Stopped), Some(b"RPRT 0\n".to_vec()));
    assert_eq!(stub_reply_bytes(StubReply::Rejected), Some(b"RPRT -1\n".to_vec()));
    assert_eq!(stub_reply_bytes(StubReply::Info), Some(b"Model: W5500 Rotator\n".to_vec()));
    assert_eq!(
        stub_reply_bytes(StubReply::StateDump),
        Some(b"0\nrot_model=0\nmin_az=0.0\nmax_az=360.0\nmin_el=0.0\nmax_el=90.0\n0\n0\n".to_vec())
    );
    assert_eq!(stub_reply_bytes(StubReply::Position), None);
    assert_eq!(stub_reply_bytes(StubReply::Close), None);
}

#[test]
fn lenient_numbers() {
    assert_eq!(parse_f32(b"123.4"), Some(dec(false, 123, 4, 1)));
    assert_eq!(parse_f32(b"-5.67"), Some(dec(true, 5, 67, 2)));
    assert_eq!(parse_f32(b"-"), Some(dec(true, 0, 0, 0)));
    assert_eq!(parse_f32(b"."), Some(dec(false, 0, 0, 0)));
    assert_eq!(parse_f32(b"1.2.3"), Some(dec(false, 1, 23, 2)));
    assert_eq!(parse_f32(b""), None);
    assert_eq!(parse_f32(b"+1"), None);
    assert_eq!(parse_f32(b" 1"), None);
    assert_eq!(parse_f32(b"4294967296"), Some(dec(false, 0, 0, 0)));
    assert_eq!(parse_f32(b"0.12345678901"), Some(dec(false, 0, 12345678901u64 as u32, 11)));
}

#[test]
fn two_floats() {
    assert_eq!(parse_two_floats(b" 10 20 "), Some((dec(false, 10, 0, 0), dec(false, 20, 0, 0))));
    assert_eq!(parse_two_floats(b"10   20"), Some((dec(false, 10, 0, 0), dec(false, 20, 0, 0))));
    assert_eq!(parse_two_floats(b"10"), None);
    assert_eq!(parse_two_floats(b"x 20"), None);
    assert_eq!(parse_two_floats(b"10 2 0"), None);
}

#[test]
fn trims_blanks() {
    assert_eq!(trim(b" \t p \r"), b"p");
    assert_eq!(trim(b"   "), b"");
    assert_eq!(trim(b"\na\n"), b"\na\n");
}

#[test]
fn formats_u32() {
    let mut buf = [b'#'; 12];
    assert_eq!(format_u32(&mut buf, 0), 1);
    assert_eq!(&buf[..2], b"0#");
    assert_eq!(format_u32(&mut buf, 4294967295), 10);
    assert_eq!(&buf[..11], b"4294967295#");
    let mut small = [0u8; 3];
    assert_eq!(format_u32(&mut small, 360), 3);
    assert_eq!(&small, b"360");
}

#[test]
fn collects_lines() {
    let mut c = LineCollector::new();
    let mut got = Vec::new();
    for b in b"p\nP 1 2\n" {
        if let Some(l) = c.push(*b) {
            got.push(l);
        }
    }
    assert_eq!(got, vec![b"p".to_vec(), b"P 1 2".to_vec()]);
    let long = vec![b'z'; STUB_LINE_CAPACITY + 10];
    for b in &long {
        assert_eq!(c.push(*b), None);
    }
    assert_eq!(c.push(b'\n'), Some(vec![b'z'; STUB_LINE_CAPACITY]));
}

#[test]
fn stub_stores_fractional_angles() {
    assert_eq!(
        process_command(b"P 123.45 -6.05"),
        StubReply::PositionSet(dec(false, 123, 45, 2), dec(true, 6, 5, 2))
    );
}
