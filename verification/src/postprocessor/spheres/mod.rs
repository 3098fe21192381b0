//! Passes over packings of spheres.
pub mod sphere_last_bin_cleanup_processor;
