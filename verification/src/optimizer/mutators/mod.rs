pub mod bin_preservation_crossover;
pub mod crossover;
pub mod insert_mutation;
pub mod scramble_mutation;
pub mod space_mutation;
pub mod swap_mutation;
