pub mod grad;
pub mod optimizer;
