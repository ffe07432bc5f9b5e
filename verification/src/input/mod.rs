pub mod line;
pub mod parser;
pub mod trigger;
