//! Placement scoring core for a 2D arrangement problem: point emitters
//! (musicians) on a stage, listeners (attendees) in a room, and circular
//! obstacles (pillars) that block line of sight.
//!
//! All geometry uses exact integer arithmetic on fixed-point coordinates
//! (thousandths of a unit), so every comparison at a boundary is exact and
//! every score is a well-defined integer.

pub mod assignment;
pub mod geometry;
pub mod index;
pub mod occlusion;
pub mod placement;
pub mod problem;
pub mod scoring;
pub mod util;
