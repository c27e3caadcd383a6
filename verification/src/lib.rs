//! A collection of maze generation algorithms.
pub mod prelude;

pub mod rng;

pub mod ellers_algorithm;
pub mod growing_tree;
pub mod prims_algorithm;
pub mod recursive_backtracking;
