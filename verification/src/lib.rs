//! Reconstruction of the raster content of a rectangular hole in a binary
//! image, and optimal matching between two sets of directional points.

pub mod assignment;
pub mod distance;
pub mod endpoints;
pub mod filler;
pub mod flood;
pub mod flood_all;
pub mod geometry;
pub mod grid;
pub mod image;
pub mod matcher_helper;
pub mod matching;
pub mod matching_laws;
pub mod raster;
pub mod walk;

pub use assignment::MAX_COST;
pub use distance::SquareDistanceMatrix;
pub use filler::HoleFiller;
pub use geometry::{BoundingRect, PointI32, PointUsize};
pub use grid::{FilledHoleElement, FilledHoleMatrix, Grid};
pub use matcher_helper::{MatchItem, MatchItemSet};
pub use matching::{get_sorted_index_pairs, sort_index_pair, Matching};
pub use raster::{CompoundPath, CompoundPathElement};
