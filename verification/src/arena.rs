//! The rectangular arena and its four walls.

use vstd::prelude::*;
use crate::geometry::{Line, Point};

verus! {

/// The largest width or height an arena can have, in length units.
pub const MAX_EXTENT: i32 = 1_000_000_000;

/// Why a width and a height do not make an arena.
#[derive(Clone, Copy, Debug, PartialEq, Eq)]
pub enum ConfigError {
    /// The width or the height is zero or negative.
    EmptyArena,
    /// The width or the height is above [`MAX_EXTENT`].
    ArenaTooLarge,
}

/// A rectangular arena with one corner at the origin, and its four walls.
///
/// The walls are built once from the width and the height and never change.
#[derive(Clone, Copy, Debug)]
pub struct Arena {
    /// Extent along `x`.
    pub width: i32,
    /// Extent along `y`.
    pub height: i32,
    /// The wall at `x = 0`.
    pub left: Line,
    /// The wall at `x = width`.
    pub right: Line,
    /// The wall at `y = 0`.
    pub top: Line,
    /// The wall at `y = height`.
    pub bottom: Line,
}

impl ConfigError {
    /// What is wrong, in words.
    pub open spec fn message_text(self) -> Seq<char> {
        match self {
            ConfigError::EmptyArena => "the arena has no extent: its width and its height must be positive"@,
            ConfigError::ArenaTooLarge => "the arena is too large: neither its width nor its height may exceed 1000000000 length units"@,
        }
    }

    /// Says what is wrong, in words.
    pub fn message(&self) -> (text: &'static str)
        ensures
            text@ == self.message_text(),
    {
        match self {
            ConfigError::EmptyArena => "the arena has no extent: its width and its height must be positive",
            ConfigError::ArenaTooLarge => "the arena is too large: neither its width nor its height may exceed 1000000000 length units",
        }
    }
}

impl Arena {
    /// Whether a width and a height make an arena.
    pub open spec fn valid_size(width: int, height: int) -> bool {
        0 < width <= MAX_EXTENT && 0 < height <= MAX_EXTENT
    }

    /// The arena is not empty, not too large, and its walls are the four
    /// sides of the rectangle.
    pub open spec fn wf(&self) -> bool {
        &&& Self::valid_size(self.width as int, self.height as int)
        &&& self.left == Line((0, 0), (0, self.height))
        &&& self.right == Line((self.width, 0), (self.width, self.height))
        &&& self.top == Line((0, 0), (self.width, 0))
        &&& self.bottom == Line((0, self.height), (self.width, self.height))
    }

    /// Whether a point lies in the closed rectangle, walls included.
    pub open spec fn contains(&self, p: Point) -> bool {
        0 <= p.0 <= self.width && 0 <= p.1 <= self.height
    }

    /// Builds the arena of the given width and height, or says why there is
    /// none: an arena without extent is refused, and so is one too large for
    /// the arithmetic.
    pub fn new(width: i32, height: i32) -> (made: Result<Arena, ConfigError>)
        ensures
            made is Ok <==> Self::valid_size(width as int, height as int),
            made matches Ok(arena) ==> arena.wf() && arena.width == width && arena.height
                == height,
            made matches Err(e) ==> (e == ConfigError::EmptyArena <==> (width <= 0 || height
                <= 0)),
    {
        if width <= 0 || height <= 0 {
            return Err(ConfigError::EmptyArena);
        }
        if width > MAX_EXTENT || height > MAX_EXTENT {
            return Err(ConfigError::ArenaTooLarge);
        }
        Ok(
            Arena {
                width,
                height,
                left: Line((0, 0), (0, height)),
                right: Line((width, 0), (width, height)),
                top: Line((0, 0), (width, 0)),
                bottom: Line((0, height), (width, height)),
            },
        )
    }

    /// Tests whether a point lies in the closed rectangle, walls included.
    pub fn is_inside(&self, p: Point) -> (inside: bool)
        ensures
            inside == self.contains(p),
    {
        0 <= p.0 && p.0 <= self.width && 0 <= p.1 && p.1 <= self.height
    }
}

} // verus!
