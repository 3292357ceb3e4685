//! Conformal prediction with a k-nearest-neighbour nonconformity measure.
//!
//! The library turns labelled training rows and unlabelled test rows into
//! calibrated p-values, one per candidate label, and into set-valued
//! prediction regions at a chosen significance level. Both the transductive
//! and the inductive form are offered, each deterministic or smoothed.
//!
//! Everything is exact integer arithmetic. A row is a vector of fixed-point
//! coordinates (`i32`, at a scale the caller picks), a distance is the
//! integer square root of the squared Euclidean distance, a score is a sum of
//! distances, and a p-value is held as an exact fraction.
use vstd::prelude::*;

pub mod cp;
pub mod data;
pub mod distance;
pub mod knn;
pub mod labels;
pub mod pvalue;
pub mod rng;
pub mod select;
pub mod store;
