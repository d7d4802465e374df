//! One placed copy of the collectible.
use vstd::prelude::*;
use crate::arith::Vec3;

verus! {

/// Scale of an instance at its full size, in thousandths.
pub const FULL_SCALE: u32 = 1000;

/// A colour with its opacity, 8 bits each.
#[derive(Clone, Copy, PartialEq, Eq, Structural, Debug)]
pub struct Rgba {
    pub r: u8,
    pub g: u8,
    pub b: u8,
    pub a: u8,
}

/// Where and how one collectible is drawn: its position, its turn about the
/// vertical axis in microradians, its scale in thousandths and its tint.
#[derive(Clone, Copy, PartialEq, Eq, Structural, Debug)]
pub struct BananaInstance {
    pub position: Vec3,
    pub rotation: i64,
    pub scale: u32,
    pub color: Rgba,
}

impl BananaInstance {
    /// The template of every instance: at the origin, not turned, full size,
    /// white and clear.
    pub open spec fn blank() -> BananaInstance {
        BananaInstance {
            position: Vec3::zero(),
            rotation: 0,
            scale: FULL_SCALE,
            color: Rgba { r: 255, g: 255, b: 255, a: 0 },
        }
    }

    /// An instance scaled to nothing is not seen.
    pub open spec fn is_degenerate(&self) -> bool {
        self.scale == 0
    }

    /// Whether the instance is scaled to nothing.
    pub fn degenerate(&self) -> (d: bool)
        ensures
            d == self.is_degenerate(),
    {
        self.scale == 0
    }
}

impl Default for BananaInstance {
    fn default() -> (instance: BananaInstance)
        ensures
            instance == BananaInstance::blank(),
    {
        BananaInstance {
            position: Vec3 { x: 0, y: 0, z: 0 },
            rotation: 0,
            scale: FULL_SCALE,
            color: Rgba { r: 255, g: 255, b: 255, a: 0 },
        }
    }
}

} // verus!
