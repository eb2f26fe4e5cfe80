//! Exact linear-regression and summary statistics over career records.
//!
//! A record holds finite decimal numbers, each kept exactly. A sample is
//! counted in one unit, a power of ten, in which every value is a whole
//! number, and every statistic is kept as a quotient of integers. So the
//! contracts speak of the mathematical values themselves and not of rounded
//! approximations. A caller that wants decimal output divides at the very end.

pub mod series;
pub mod wide;
pub mod ratio;
pub mod text;
pub mod regression;
pub mod descriptive;
pub mod record;
pub mod loader;
pub mod table;
pub mod analysis;
