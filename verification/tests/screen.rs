use polar_pilot::tasks::display::{fault_screen, ip_lower_row, ip_upper_row, readout, status_label};
use polar_pilot::tasks::net::{after_dhcp_wait, static_gw, static_ip, StaticIpv4, DHCP_TIMEOUT_SECS};
use polar_pilot::types::{Axis, FaultKind, Phase};

#[test]
fn status_line() {
    assert_eq!(status_label(Phase::Homing, true, true), "Homing");
    assert_eq!(status_label(Phase::Running, true, false), "Moving");
    assert_eq!(status_label(Phase::Running, false, true), "Idle");
    assert_eq!(status_label(Phase::Running, false, false), "No IP");
}

#[test]
fn fault_screen_lines() {
    assert_eq!(
        fault_screen(FaultKind::TravelLimit(Axis::Az)),
        ("FAULT", "AZ travel limit", "Power cycle", "to reset")
    );
    assert_eq!(FaultKind::EndstopStuck(Axis::El).message(), "EL endstop stuck");
}

#[test]
fn address_rows() {
    let a = Some([192, 168, 1, 200]);
    assert_eq!(ip_upper_row(a), b"192.168.".to_vec());
    assert_eq!(ip_lower_row(a), b"1.200".to_vec());
    assert_eq!(ip_upper_row(Some([10, 0, 0, 7])), b"10.0.".to_vec());
    assert_eq!(ip_lower_row(Some([10, 0, 0, 7])), b"0.7".to_vec());
    assert_eq!(ip_upper_row(None), b"---.---.".to_vec());
    assert_eq!(ip_lower_row(None), b"---.---".to_vec());
}

#[test]
fn readouts_are_right_aligned() {
    assert_eq!(readout("AZ:", 5), b"AZ:  5".to_vec());
    assert_eq!(readout("AZ:", 45), b"AZ: 45".to_vec());
    assert_eq!(readout("EL:", 180), b"EL:180".to_vec());
    assert_eq!(readout("AZ:", 1234), b"AZ:1234".to_vec());
    assert_eq!(readout("EL:", -5), b"EL: -5".to_vec());
    assert_eq!(readout("EL:", -50), b"EL:-50".to_vec());
    assert_eq!(readout("AZ:", i32::MIN), b"AZ:-2147483648".to_vec());
    for v in [-100, -9, 0, 7, 99, 360, 9999] {
        assert_eq!(readout("AZ:", v), format!("AZ:{:3}", v).into_bytes());
    }
}

#[test]
fn dhcp_fallback() {
    assert_eq!(DHCP_TIMEOUT_SECS, 120);
    assert_eq!(after_dhcp_wait(true), None);
    assert_eq!(
        after_dhcp_wait(false),
        Some(StaticIpv4 { address: [192, 168, 1, 200], prefix_len: 24, gateway: [192, 168, 1, 1] })
    );
    assert_eq!(static_ip(), [192, 168, 1, 200]);
    assert_eq!(static_gw(), [192, 168, 1, 1]);
}
