pub mod detect;
pub mod escape;
