pub mod order;
pub mod point3;
pub mod random;
