//! Block ids and their flat placeholder colours.
use vstd::prelude::*;

verus! {

/// A block type; 0 is air.
#[derive(Clone, Copy, PartialEq, Eq, Debug, Default, Structural)]
pub struct BlockId(pub u8);

/// Raw id of air.
pub const AIR: u8 = 0;

/// Raw id of stone.
pub const STONE: u8 = 1;

/// Raw id of dirt.
pub const DIRT: u8 = 2;

/// Raw id of grass.
pub const GRASS: u8 = 3;

impl BlockId {
    /// Everything but air is solid.
    pub open spec fn solid(self) -> bool {
        self.0 != 0
    }

    /// Colour of a block type (magenta for a type without one).
    pub open spec fn spec_color(self) -> [u8; 4] {
        if self.0 == 1 {
            [120, 120, 125, 255]
        } else if self.0 == 2 {
            [110, 80, 55, 255]
        } else if self.0 == 3 {
            [95, 160, 70, 255]
        } else {
            [255, 0, 255, 255]
        }
    }

    /// Whether the block is anything but air.
    pub fn is_solid(self) -> (r: bool)
        ensures
            r == self.solid(),
    {
        self.0 != 0
    }

    /// Flat colour used until blocks get textures.
    pub fn color(self) -> (r: [u8; 4])
        ensures
            r == self.spec_color(),
    {
        if self.0 == 1 {
            [120, 120, 125, 255]
        } else if self.0 == 2 {
            [110, 80, 55, 255]
        } else if self.0 == 3 {
            [95, 160, 70, 255]
        } else {
            [255, 0, 255, 255]
        }
    }
}

} // verus!
