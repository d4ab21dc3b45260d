//! The ASCII codes that the encoders write.

use vstd::prelude::*;

verus! {

/// The line feed.
pub const NEWLINE: u8 = 0x0a;

/// The space.
pub const SPACE: u8 = 0x20;

/// The minus sign.
pub const MINUS: u8 = 0x2d;

/// The decimal point.
pub const POINT: u8 = 0x2e;

/// The digit `0`.
pub const ZERO: u8 = 0x30;

/// The letter `A`.
pub const UPPER_A: u8 = 0x41;

/// The letter `a`.
pub const LOWER_A: u8 = 0x61;

/// The letter `x`.
pub const LOWER_X: u8 = 0x78;

} // verus!
