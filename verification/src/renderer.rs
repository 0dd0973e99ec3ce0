//! The plain-value interface between the world and a rendering backend.
//!
//! The runtime itself never draws: draw-producing systems append
//! `DrawCommand`s to a list and compute a `Camera`, and whatever backend
//! the caller owns consumes them.

use vstd::prelude::*;

verus! {

/// An integer point or extent in world space.
#[derive(Debug, Clone, Copy, PartialEq, Eq, Structural)]
pub struct Vec2i {
    pub x: i64,
    pub y: i64,
}

/// Coordinate magnitude up to which the arithmetic of the systems is
/// performed; positions, velocities, sizes and time deltas beyond it are
/// left untouched rather than risking overflow.
pub const COORD_LIMIT: i64 = 0x7fff_ffff;

impl Vec2i {
    /// Both coordinates within the working range.
    pub open spec fn spec_in_range(self) -> bool {
        -COORD_LIMIT <= self.x <= COORD_LIMIT && -COORD_LIMIT <= self.y <= COORD_LIMIT
    }

    pub fn new(x: i64, y: i64) -> (r: Self)
        ensures
            r == (Vec2i { x, y }),
    {
        Vec2i { x, y }
    }

    /// Whether both coordinates are within the working range.
    pub fn in_range(&self) -> (r: bool)
        ensures
            r == self.spec_in_range(),
    {
        -COORD_LIMIT <= self.x && self.x <= COORD_LIMIT && -COORD_LIMIT <= self.y && self.y
            <= COORD_LIMIT
    }
}

/// Handle to a sprite previously loaded into a rendering backend.
#[derive(Debug, Clone, Copy, PartialEq, Eq, Structural)]
pub struct SpriteIndex(pub u32);

/// Which of the bundled demo textures an entity shows.
#[derive(Debug, Clone, Copy, PartialEq, Eq, Structural)]
pub enum TankOrTree {
    Tank,
    Tree,
}

/// The world-space window the backend should show.
#[derive(Debug, Clone, Copy, PartialEq, Eq, Structural)]
pub struct Camera {
    pub top_left: Vec2i,
    pub width_height: Vec2i,
}

/// One drawing instruction for the backend: an image at a depth, or a
/// debug rectangle outline.
#[derive(Debug, Clone, Copy, PartialEq, Eq, Structural)]
pub enum DrawCommand {
    Image { sprite_index: SpriteIndex, depth: u8, position: Vec2i, size: Vec2i },
    Rectangle { position: Vec2i, size: Vec2i },
}

} // verus!
