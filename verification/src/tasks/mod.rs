//! The decision logic of the firmware's tasks.

pub mod rotctld;
pub mod easycom;
pub mod keys;
pub mod motor;
pub mod display;
pub mod net;
