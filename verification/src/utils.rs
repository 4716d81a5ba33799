pub mod data_type;
pub mod math;
