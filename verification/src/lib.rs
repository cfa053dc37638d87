pub mod engine;
pub mod model;
