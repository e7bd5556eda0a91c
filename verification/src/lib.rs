//! Greedy bin packing: items are sorted by decreasing size and placed
//! first-fit into the most recently opened bin only.

pub mod generate;
pub mod laws;
pub mod packing;
