pub mod mutators;
pub mod population;
pub mod ranking;
