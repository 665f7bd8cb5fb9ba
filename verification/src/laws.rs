//! Properties that hold across the library's operations, one module per
//! part of the firmware.

pub mod buttons;
pub mod display;
pub mod easycom;
pub mod homing;
pub mod numbers;
pub mod responder;
pub mod rotctld;
pub mod wire;
