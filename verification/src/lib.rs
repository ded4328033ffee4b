//! Window-management core of a BSP tiling compositor: the layout tree,
//! per-workspace window registries, tiled/floating classification, the
//! geometry engine that turns a tree into window rectangles, and
//! point-based hit testing.

pub mod binarytree;
pub mod classifier;
pub mod config;
pub mod debug;
pub mod dwindle;
pub mod geometry;
pub mod seqs;
pub mod tiling;
pub mod workspace;
pub mod xcursor;
