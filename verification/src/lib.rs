//! Fixed-point core of a walkable heightmap landscape: terrain sampling and
//! meshing, procedurally placed collectibles, and the player controller.
//!
//! Nothing here is a float. A height field counts lengths in whatever unit
//! its texel size and height multiplier are given in; the collectibles and
//! the player fix that unit at a thousandth of a world unit. Angles are in
//! microradians, pointer positions in thousandths of a pixel, time in
//! milliseconds.
pub mod arith;
pub mod banana_instance;
pub mod decode;
pub mod game;
pub mod height_field;
pub mod height_map;
pub mod instance_compute;
pub mod mesh;
pub mod upload;
