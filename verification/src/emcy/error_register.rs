//! Error register bits (CiA 301, object 0x1001).

use vstd::prelude::*;

verus! {

pub const GENERIC: u8 = 0x01;

pub const CURRENT: u8 = 0x02;

pub const VOLTAGE: u8 = 0x04;

pub const TEMPERATURE: u8 = 0x08;

pub const COMMUNICATION: u8 = 0x10;

pub const DEVICE_PROFILE: u8 = 0x20;

pub const MANUFACTURER: u8 = 0x80;

} // verus!
