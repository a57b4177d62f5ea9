//! Small helpers shared across the crate.

pub mod path_filter;
pub mod path_sort;
pub mod text;
