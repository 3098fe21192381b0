//! Order-level logic of a 3D bin packer: the genetic operators that permute
//! packing orders, the construction of populations, and the bookkeeping of
//! candidate gaps used by the advancing-front sphere packer.
pub mod common;
pub mod optimizer;
pub mod postprocessor;
pub mod solver;
