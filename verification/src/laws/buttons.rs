//! Laws of the 5-way navigation button.

use vstd::prelude::*;
use crate::tasks::keys::{btn_after, jogging, key_command, keypad_after, BtnState, KeyLevels, Keypad};
use crate::types::{Goal, RotatorCmd};

verus! {

/// A button counts as pressed only after two consecutive low samples; one
/// high sample releases it.
pub proof fn press_needs_two_low_samples(b: BtnState, pin_low: bool)
    requires
        b.raw_count <= 2,
    ensures
        btn_after(b, pin_low).pressed <==> (pin_low && b.raw_count >= 1),
        btn_after(b, pin_low).raw_count <= 2,
{
}

/// All button input is ignored unless the rotator is running.
pub proof fn buttons_ignored_unless_running(k: Keypad, l: KeyLevels)
    ensures
        key_command(k, l, false) is None,
{
}

/// A CENTER press parks the rotator at 0°/0°, whatever else is held.
pub proof fn center_press_parks(k: Keypad, l: KeyLevels)
    requires
        !k.center.pressed,
        btn_after(k.center, l.center).pressed,
    ensures
        key_command(k, l, true) == Some(RotatorCmd::GoTo { az: Goal::Zero, el: Goal::Zero }),
{
}

/// Letting go of the last direction button stops the rotator.
pub proof fn release_stops(k: Keypad, l: KeyLevels)
    requires
        jogging(k),
        !jogging(keypad_after(k, l)),
        !(btn_after(k.center, l.center).pressed && !k.center.pressed),
    ensures
        key_command(k, l, true) == Some(RotatorCmd::Stop),
{
}

/// Held together, UP wins over DOWN and RIGHT over LEFT.
pub proof fn positive_direction_wins(k: Keypad, l: KeyLevels)
    requires
        !(btn_after(k.center, l.center).pressed && !k.center.pressed),
        btn_after(k.up, l.up).pressed,
        btn_after(k.right, l.right).pressed,
    ensures
        key_command(k, l, true) == Some(RotatorCmd::GoTo { az: Goal::JogUp, el: Goal::JogUp }),
{
}

/// While a direction button is held, each poll sends a go-to in which an
/// axis with a held button runs to a far sentinel and an axis with none
/// holds its current position.
pub proof fn held_direction_moves_only_its_axis(k: Keypad, l: KeyLevels)
    requires
        !(btn_after(k.center, l.center).pressed && !k.center.pressed),
        jogging(keypad_after(k, l)),
    ensures
        ({
            let n = keypad_after(k, l);
            &&& key_command(k, l, true) matches Some(RotatorCmd::GoTo { az, el }) && {
                &&& (az == Goal::HoldCurrent <==> !n.up.pressed && !n.down.pressed)
                &&& (el == Goal::HoldCurrent <==> !n.right.pressed && !n.left.pressed)
                &&& (az == Goal::JogUp || az == Goal::JogDown || az == Goal::HoldCurrent)
                &&& (el == Goal::JogUp || el == Goal::JogDown || el == Goal::HoldCurrent)
            }
        }),
{
}

/// Each direction button jogs its axis its own way: UP runs azimuth to
/// the positive sentinel and DOWN (without UP) to the negative one; RIGHT
/// runs elevation to the positive sentinel and LEFT (without RIGHT) to the
/// negative one.  The command is sent on every poll while held.
pub proof fn each_button_jogs_its_own_way(k: Keypad, l: KeyLevels)
    requires
        !(btn_after(k.center, l.center).pressed && !k.center.pressed),
    ensures
        ({
            let n = keypad_after(k, l);
            let cmd = key_command(k, l, true);
            &&& n.up.pressed ==> (cmd matches Some(RotatorCmd::GoTo { az, .. }) && az
                == Goal::JogUp)
            &&& n.down.pressed && !n.up.pressed ==> (cmd matches Some(RotatorCmd::GoTo { az, .. })
                && az == Goal::JogDown)
            &&& n.right.pressed ==> (cmd matches Some(RotatorCmd::GoTo { el, .. }) && el
                == Goal::JogUp)
            &&& n.left.pressed && !n.right.pressed ==> (cmd matches Some(RotatorCmd::GoTo { el, .. })
                && el == Goal::JogDown)
        }),
{
}

} // verus!
