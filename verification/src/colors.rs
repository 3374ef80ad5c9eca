//! The channels of a few common colours, each in the order red, green,
//! blue, alpha. Wrap one in `Rgba` to draw with it.

use vstd::prelude::*;

verus! {

/// Opaque red.
pub const RED: [u8; 4] = [255, 0, 0, 255];

/// Opaque black.
pub const BLACK: [u8; 4] = [0, 0, 0, 255];

/// Opaque purple.
pub const PURPLE: [u8; 4] = [150, 0, 150, 255];

/// Opaque green.
pub const GREEN: [u8; 4] = [0, 255, 0, 255];

/// Opaque white.
pub const WHITE: [u8; 4] = [255, 255, 255, 255];

} // verus!
