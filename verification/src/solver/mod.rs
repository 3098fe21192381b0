pub mod placement_utils;
pub mod spheres;
