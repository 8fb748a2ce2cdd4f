//! Linux evdev keycodes named by the input layer (a subset of `input-event-codes.h`).

use vstd::prelude::*;

verus! {

pub const KEY_LEFTSHIFT: u16 = 42;
pub const KEY_RIGHTSHIFT: u16 = 54;
pub const KEY_LEFTCTRL: u16 = 29;
pub const KEY_RIGHTCTRL: u16 = 97;
pub const KEY_LEFTALT: u16 = 56;
pub const KEY_RIGHTALT: u16 = 100;
pub const KEY_F9: u16 = 67;
pub const KEY_F10: u16 = 68;

} // verus!
