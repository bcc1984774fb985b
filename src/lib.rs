pub mod engine;
pub mod envelope;
pub mod tuning;
