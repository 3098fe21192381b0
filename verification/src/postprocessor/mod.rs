//! Passes run over a finished packing, such as the repacking of a sparsely
//! filled last bin.
pub mod postprocessor_interface;
pub mod rectangles;
pub mod spheres;
