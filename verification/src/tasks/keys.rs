//! The 5-way navigation button: debouncing and what each poll sends to
//! the motor controller.

use vstd::prelude::*;

use crate::types::{Goal, RotatorCmd};

verus! {

/// Consecutive low samples that make a press.
pub const DEBOUNCE_SAMPLES: u8 = 2;

/// The button is polled this often.
pub const POLL_PERIOD_MS: u64 = 20;

/// Debounce state of one button.
#[derive(Clone, Copy, Debug, PartialEq, Eq, Structural)]
pub struct BtnState {
    /// Consecutive low samples seen, saturating at [`DEBOUNCE_SAMPLES`].
    pub raw_count: u8,
    /// The debounced state.
    pub pressed: bool,
}

/// The count after one sample.
pub open spec fn next_count(count: u8, pin_low: bool) -> u8 {
    if pin_low {
        if count < DEBOUNCE_SAMPLES {
            (count + 1) as u8
        } else {
            count
        }
    } else {
        0
    }
}

/// A button after one sample.
pub open spec fn btn_after(b: BtnState, pin_low: bool) -> BtnState {
    let count = next_count(b.raw_count, pin_low);
    BtnState { raw_count: count, pressed: count >= DEBOUNCE_SAMPLES }
}

impl BtnState {
    pub fn new() -> (r: Self)
        ensures
            r.raw_count == 0,
            !r.pressed,
    {
        BtnState { raw_count: 0, pressed: false }
    }

    /// Take one sample; true on a press or release edge.
    pub fn update(&mut self, pin_low: bool) -> (edge: bool)
        ensures
            *final(self) == btn_after(*old(self), pin_low),
            edge == (final(self).pressed != old(self).pressed),
    {
        if pin_low {
            if self.raw_count < DEBOUNCE_SAMPLES {
                self.raw_count = self.raw_count + 1;
            }
        } else {
            self.raw_count = 0;
        }
        let now = self.raw_count >= DEBOUNCE_SAMPLES;
        let edge = now != self.pressed;
        self.pressed = now;
        edge
    }
}

/// One sample of the five buttons; `true` means the pin reads low (held).
#[derive(Clone, Copy, Debug, PartialEq, Eq, Structural)]
pub struct KeyLevels {
    pub up: bool,
    pub down: bool,
    pub left: bool,
    pub right: bool,
    pub center: bool,
}

/// Debounce state of the five buttons.
#[derive(Clone, Copy, Debug, PartialEq, Eq, Structural)]
pub struct Keypad {
    pub up: BtnState,
    pub down: BtnState,
    pub left: BtnState,
    pub right: BtnState,
    pub center: BtnState,
}

/// Any of the four direction buttons is held.
pub open spec fn jogging(k: Keypad) -> bool {
    k.up.pressed || k.down.pressed || k.left.pressed || k.right.pressed
}

/// The keypad after one sample.
pub open spec fn keypad_after(k: Keypad, l: KeyLevels) -> Keypad {
    Keypad {
        up: btn_after(k.up, l.up),
        down: btn_after(k.down, l.down),
        left: btn_after(k.left, l.left),
        right: btn_after(k.right, l.right),
        center: btn_after(k.center, l.center),
    }
}

/// The jog target of an axis: the positive button wins over the negative.
pub open spec fn jog_goal(positive: bool, negative: bool) -> Goal {
    if positive {
        Goal::JogUp
    } else if negative {
        Goal::JogDown
    } else {
        Goal::HoldCurrent
    }
}

/// What one poll sends, given the keypad before the sample, the sample and
/// whether the rotator is running.  UP/DOWN jog azimuth, RIGHT/LEFT jog
/// elevation, a CENTER press parks at 0°/0°, letting go of the last
/// direction button stops; nothing is sent unless the rotator is running.
pub open spec fn key_command(k: Keypad, l: KeyLevels, running: bool) -> Option<RotatorCmd> {
    let n = keypad_after(k, l);
    let center_edge = n.center.pressed != k.center.pressed && n.center.pressed;
    if !running {
        None
    } else if center_edge {
        Some(RotatorCmd::GoTo { az: Goal::Zero, el: Goal::Zero })
    } else if jogging(n) {
        Some(
            RotatorCmd::GoTo {
                az: jog_goal(n.up.pressed, n.down.pressed),
                el: jog_goal(n.right.pressed, n.left.pressed),
            },
        )
    } else if jogging(k) {
        Some(RotatorCmd::Stop)
    } else {
        None
    }
}

impl Keypad {
    pub fn new() -> (r: Self)
        ensures
            !jogging(r),
            !r.center.pressed,
            r.up.raw_count == 0 && r.down.raw_count == 0 && r.left.raw_count == 0
                && r.right.raw_count == 0 && r.center.raw_count == 0,
    {
        Keypad {
            up: BtnState::new(),
            down: BtnState::new(),
            left: BtnState::new(),
            right: BtnState::new(),
            center: BtnState::new(),
        }
    }

    /// Take one sample of all buttons; the command to send, if any.
    pub fn poll(&mut self, levels: KeyLevels, running: bool) -> (cmd: Option<RotatorCmd>)
        ensures
            *final(self) == keypad_after(*old(self), levels),
            cmd == key_command(*old(self), levels, running),
    {
        let was_jogging = self.right.pressed || self.left.pressed || self.up.pressed
            || self.down.pressed;
        self.right.update(levels.right);
        self.left.update(levels.left);
        self.up.update(levels.up);
        self.down.update(levels.down);
        let center_edge = self.center.update(levels.center) && self.center.pressed;
        if !running {
            return None;
        }
        if center_edge {
            return Some(RotatorCmd::GoTo { az: Goal::Zero, el: Goal::Zero });
        }
        let jogging_now = self.up.pressed || self.down.pressed || self.right.pressed
            || self.left.pressed;
        if jogging_now {
            let az = if self.up.pressed {
                Goal::JogUp
            } else if self.down.pressed {
                Goal::JogDown
            } else {
                Goal::HoldCurrent
            };
            let el = if self.right.pressed {
                Goal::JogUp
            } else if self.left.pressed {
                Goal::JogDown
            } else {
                Goal::HoldCurrent
            };
            Some(RotatorCmd::GoTo { az, el })
        } else if was_jogging {
            Some(RotatorCmd::Stop)
        } else {
            None
        }
    }
}

} // verus!
