//! Laws of the display text.

use vstd::prelude::*;
use crate::tasks::display::{ip_lower_text, ip_upper_text};
use crate::text::{decimal_digits, lit};

verus! {

/// The two address rows of the display, read one after the other, spell
/// the address in dotted decimal.
pub proof fn address_rows_spell_the_address(o: [u8; 4])
    ensures
        ip_upper_text(Some(o)) + ip_lower_text(Some(o)) == decimal_digits(o[0] as nat) + lit(".")
            + decimal_digits(o[1] as nat) + lit(".") + decimal_digits(o[2] as nat) + lit(".")
            + decimal_digits(o[3] as nat),
{
    assert(ip_upper_text(Some(o)) + ip_lower_text(Some(o)) =~= decimal_digits(o[0] as nat) + lit(
        ".",
    ) + decimal_digits(o[1] as nat) + lit(".") + decimal_digits(o[2] as nat) + lit(".")
        + decimal_digits(o[3] as nat));
}

} // verus!
