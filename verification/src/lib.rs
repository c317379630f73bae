//! Point particles that move at constant speed inside a rectangular, walled
//! arena and bounce off its boundary like light off a mirror.
//!
//! All quantities are exact integers. Coordinates and distances are counted
//! in whole length units, [`geometry::LENGTH_SCALE`] of them to one unit of
//! arena size; a heading is held by its cosine and sine in fixed point.
//!
//! - [`geometry`]: points, segments, where two segments cross, distances.
//! - [`arena`]: the rectangle and its four walls.
//! - [`walls`]: where a straight move meets an axis-aligned wall.
//! - [`motion`]: the resolver that moves one particle by one tick.
//! - [`round_trip`]: a particle sent straight at a wall comes back.
//! - [`particles`]: the store of particles and its tick.
//! - [`board`]: the character grid and its text.
//! - [`numeric`]: the integer arithmetic under all of it.

pub mod arena;
pub mod board;
pub mod geometry;
pub mod motion;
pub mod numeric;
pub mod particles;
pub mod round_trip;
pub mod walls;
