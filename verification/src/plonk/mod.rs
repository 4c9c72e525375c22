pub mod circuit_builder;
pub mod circuit_data;
pub mod gate;
pub mod witness;
