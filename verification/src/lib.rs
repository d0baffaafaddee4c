//! Three independent numeric kernels: a search for a value in an array of
//! integers, which runs in parallel above a length threshold; the choice of
//! an index by one spin of a weighted wheel; and the table of a metric over
//! every pair of points from two sets, filled in parallel.

pub mod pairwise;
pub mod sampler;
pub mod search;
