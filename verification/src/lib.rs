//! The discrete core of a recursive sphere ray tracer.
//!
//! A ray tracer computes in single precision, and decides by comparing what
//! it computed. This library holds the decisions: which crossing of a sphere
//! counts, which surface is nearest, whether a ray meets the checkerboard and
//! in which shade, when a ray ends in the background, when a light is
//! shadowed, and by what a bright pixel is scaled. It also holds the layout
//! of the frame, the environment image behind the scene, and the binary
//! format the finished picture is written in.
//!
//! Numbers enter as their 32-bit patterns and are compared through integer
//! keys that keep their order; the arithmetic that produces them stays with
//! the caller. Every function carries a proved contract.

pub mod board;
pub mod envmap;
pub mod grid;
pub mod intersect;
pub mod key;
pub mod ppm;
pub mod scene;
pub mod shade;
pub mod tone;
