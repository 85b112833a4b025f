use vstd::prelude::*;

verus! {

/// Event type of a frame boundary.
pub const EV_SYN: u16 = 0x00;
/// Event type of a key or button.
pub const EV_KEY: u16 = 0x01;
/// Event type of an absolute axis.
pub const EV_ABS: u16 = 0x03;

/// Code of the frame boundary event.
pub const SYN_REPORT: u16 = 0;

pub const BTN_SOUTH: u16 = 0x130;
pub const BTN_EAST: u16 = 0x131;
pub const BTN_NORTH: u16 = 0x133;
pub const BTN_WEST: u16 = 0x134;
pub const BTN_TL: u16 = 0x136;
pub const BTN_TR: u16 = 0x137;
pub const BTN_TL2: u16 = 0x138;
pub const BTN_TR2: u16 = 0x139;
pub const BTN_SELECT: u16 = 0x13a;
pub const BTN_START: u16 = 0x13b;
pub const BTN_THUMBL: u16 = 0x13d;
pub const BTN_THUMBR: u16 = 0x13e;
pub const BTN_TOOL_FINGER: u16 = 0x145;
pub const BTN_TOUCH: u16 = 0x14a;

pub const ABS_X: u16 = 0x00;
pub const ABS_Y: u16 = 0x01;
pub const ABS_Z: u16 = 0x02;
pub const ABS_RX: u16 = 0x03;
pub const ABS_RY: u16 = 0x04;
pub const ABS_RZ: u16 = 0x05;
pub const ABS_HAT0X: u16 = 0x10;
pub const ABS_HAT0Y: u16 = 0x11;
pub const ABS_MT_SLOT: u16 = 0x2f;
pub const ABS_MT_POSITION_X: u16 = 0x35;
pub const ABS_MT_POSITION_Y: u16 = 0x36;
pub const ABS_MT_TRACKING_ID: u16 = 0x39;
pub const ABS_MT_PRESSURE: u16 = 0x3a;

/// Key state of a press.
pub const KEY_PRESSED: i32 = 1;
/// Key state of a release.
pub const KEY_RELEASED: i32 = 0;

/// One evdev event as the kernel takes it: type, code and value.
/// The timestamp is filled in by whoever writes the event.
#[derive(Clone, Copy, Debug, PartialEq, Eq, Structural)]
pub struct InputEvent {
    pub kind: u16,
    pub code: u16,
    pub value: i32,
}

pub open spec fn key_ev(code: u16, value: i32) -> InputEvent {
    InputEvent { kind: EV_KEY, code, value }
}

pub open spec fn abs_ev(code: u16, value: i32) -> InputEvent {
    InputEvent { kind: EV_ABS, code, value }
}

pub open spec fn syn_ev() -> InputEvent {
    InputEvent { kind: EV_SYN, code: SYN_REPORT, value: 0 }
}

impl InputEvent {
    pub fn key(code: u16, value: i32) -> (r: InputEvent)
        ensures
            r == key_ev(code, value),
    {
        InputEvent { kind: EV_KEY, code, value }
    }

    pub fn absolute(code: u16, value: i32) -> (r: InputEvent)
        ensures
            r == abs_ev(code, value),
    {
        InputEvent { kind: EV_ABS, code, value }
    }

    pub fn synchronize() -> (r: InputEvent)
        ensures
            r == syn_ev(),
    {
        InputEvent { kind: EV_SYN, code: SYN_REPORT, value: 0 }
    }
}

} // verus!
