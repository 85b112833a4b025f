//! Input translation for a PS Vita used as a DualShock 4: the wire protocol that
//! carries the Vita's reports, the touch zones that turn touches into buttons, and
//! the translators that turn reports into evdev events or DualShock 4 reports.
use vstd::prelude::*;

pub mod buttons;
pub mod codec;
pub mod config;
pub mod connection;
pub mod device;
pub mod ds4;
pub mod events;
pub mod report;
pub mod touch;
