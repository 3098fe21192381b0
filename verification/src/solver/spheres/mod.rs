pub mod candidate_list;
pub mod constraint;
pub mod gap_fill;
pub mod spatial_grid;
pub mod geometry;
