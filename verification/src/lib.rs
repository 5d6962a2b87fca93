//! The decisions of one iteration of rigid point-cloud registration.
//!
//! Coordinates never enter this crate. A distance, a residual or a
//! displacement is handed over as a *key*: an unsigned integer whose order is
//! the order of the magnitudes it stands for, and from which the caller gets
//! the magnitude back. Points are known by their position in their set.
//!
//! - [`pairing`]: whether two point sets pair up index by index;
//! - [`order`]: ascending order and the median of a set of keys;
//! - [`finder`]: which nearest neighbours count as correspondences;
//! - [`solver`]: whether a fitted transform is repaired, kept or replaced.

pub mod error;
pub mod finder;
pub mod order;
pub mod pairing;
pub mod solver;
