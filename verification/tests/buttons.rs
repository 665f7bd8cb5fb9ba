use polar_pilot::tasks::keys::{BtnState, KeyLevels, Keypad};
use polar_pilot::types::{Goal, RotatorCmd};

const NONE: KeyLevels = KeyLevels { up: false, down: false, left: false, right: false, center: false };

fn with(f: impl Fn(&mut KeyLevels)) -> KeyLevels {
    let mut l = NONE;
    f(&mut l);
    l
}

#[test]
fn press_needs_two_samples() {
    let mut b = BtnState::new();
    assert!(!b.update(true));
    assert!(!b.pressed);
    assert!(b.update(true));
    assert!(b.pressed);
    assert!(!b.update(true));
    assert!(b.pressed);
    assert!(b.update(false));
    assert!(!b.pressed);
    assert_eq!(b.raw_count, 0);
}

#[test]
fn bounce_does_not_press() {
    let mut b = BtnState::new();
    for _ in 0..5 {
        assert!(!b.update(true));
        assert!(!b.update(false));
    }
    assert!(!b.pressed);
}

#[test]
fn holding_up_jogs_azimuth_up_then_release_stops() {
    let mut k = Keypad::new();
    let up = with(|l| l.up = true);
    assert_eq!(k.poll(up, true), None);
    let jog = Some(RotatorCmd::GoTo { az: Goal::JogUp, el: Goal::HoldCurrent });
    assert_eq!(k.poll(up, true), jog);
    assert_eq!(k.poll(up, true), jog);
    assert_eq!(k.poll(NONE, true), Some(RotatorCmd::Stop));
    assert_eq!(k.poll(NONE, true), None);
}

#[test]
fn left_and_right_jog_elevation() {
    let mut k = Keypad::new();
    let left = with(|l| l.left = true);
    k.poll(left, true);
    assert_eq!(k.poll(left, true), Some(RotatorCmd::GoTo { az: Goal::HoldCurrent, el: Goal::JogDown }));
    let mut k = Keypad::new();
    let right = with(|l| l.right = true);
    k.poll(right, true);
    assert_eq!(k.poll(right, true), Some(RotatorCmd::GoTo { az: Goal::HoldCurrent, el: Goal::JogUp }));
}

#[test]
fn opposite_buttons_positive_wins() {
    let mut k = Keypad::new();
    let all = with(|l| {
        l.up = true;
        l.down = true;
        l.left = true;
        l.right = true;
    });
    k.poll(all, true);
    assert_eq!(k.poll(all, true), Some(RotatorCmd::GoTo { az: Goal::JogUp, el: Goal::JogUp }));
    let down_left = with(|l| {
        l.down = true;
        l.left = true;
    });
    assert_eq!(k.poll(down_left, true), Some(RotatorCmd::GoTo { az: Goal::JogDown, el: Goal::JogDown }));
}

#[test]
fn center_parks_once() {
    let mut k = Keypad::new();
    let center = with(|l| l.center = true);
    assert_eq!(k.poll(center, true), None);
    let park = Some(RotatorCmd::GoTo { az: Goal::Zero, el: Goal::Zero });
    assert_eq!(k.poll(center, true), park);
    assert_eq!(k.poll(center, true), None);
    assert_eq!(k.poll(NONE, true), None);
}

#[test]
fn buttons_ignored_while_homing() {
    let mut k = Keypad::new();
    let up = with(|l| l.up = true);
    assert_eq!(k.poll(up, false), None);
    assert_eq!(k.poll(up, false), None);
    assert!(k.up.pressed);
    assert_eq!(k.poll(NONE, false), None);
}

#[test]
fn center_edge_missed_while_homing() {
    let mut k = Keypad::new();
    let center = with(|l| l.center = true);
    k.poll(center, false);
    assert_eq!(k.poll(center, false), None);
    assert_eq!(k.poll(center, true), None);
}
