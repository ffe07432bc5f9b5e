pub mod popup;
pub mod render;
