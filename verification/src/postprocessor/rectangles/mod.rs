//! Passes over packings of boxes.
pub mod box_last_bin_cleanup_processor;
