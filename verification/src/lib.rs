//! Covers a polygonal area of the Earth's surface with a grid of
//! point-radius place searches and aggregates the distinct place
//! identifiers returned.
//!
//! Coordinates are carried as fixed-point microdegrees (one millionth of
//! a degree), so every geometric rule of the planner is stated and proved
//! over plain integers.

pub mod errors;
pub mod geometry;
pub mod planner;
pub mod executor;
pub mod config;
