//! Verified core of a two-axis antenna rotator controller: protocol decoding
//! for Hamlib rotctld and EasyComm II, number parsing, button debouncing,
//! the homing state machine and display text.

pub mod laws;
pub mod rotctld;
pub mod tasks;
pub mod text;
pub mod types;
pub mod util;
