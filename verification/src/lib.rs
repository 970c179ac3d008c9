//! Coordinate grids of a three-dimensional simulation domain, with the
//! sequence generators they are built from.

pub mod fixed;
pub mod space;
pub mod utils;
