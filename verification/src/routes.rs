pub mod label;
pub mod task;
