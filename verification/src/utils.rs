//! Numeric building blocks: sums over prices, the moments of priced units, sorting, and the
//! price estimates made of them.

pub mod agreement;
pub mod expansion;
pub mod moments;
pub mod series;
pub mod sorting;
pub mod stats;
pub mod trimming;
pub mod window;
