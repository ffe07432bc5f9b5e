pub mod engine;
pub mod generator;
pub mod loader;
pub mod matcher;
pub mod source;
pub mod spec;
