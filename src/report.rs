use vstd::prelude::*;
use crate::buttons::ButtonsData;

verus! {

/// One finger on a touch surface.
#[derive(Clone, Copy, Debug, PartialEq, Eq, Structural)]
pub struct TouchPoint {
    pub id: u8,
    pub x: u16,
    pub y: u16,
    pub force: u8,
}

/// Motion axes rescaled to signed 16 bits, oriented for the DualShock 4: the
/// accelerometer's x and z and the gyro's y are already sign-flipped.
#[derive(Clone, Copy, Debug, PartialEq, Eq, Structural)]
pub struct MotionSample {
    pub accel_x: i16,
    pub accel_y: i16,
    pub accel_z: i16,
    pub gyro_x: i16,
    pub gyro_y: i16,
    pub gyro_z: i16,
}

/// One Vita input report, as the translator consumes it.
#[derive(Clone, Debug)]
pub struct MainReport {
    pub timestamp: u64,
    pub buttons: ButtonsData,
    pub lx: u8,
    pub ly: u8,
    pub rx: u8,
    pub ry: u8,
    pub motion: MotionSample,
    pub front_touch: Vec<TouchPoint>,
    pub back_touch: Vec<TouchPoint>,
    pub charge_percent: u8,
}

} // verus!
