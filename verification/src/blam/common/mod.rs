pub mod memory;
pub mod data_mining;
pub mod math;
