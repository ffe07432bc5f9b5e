pub mod completion;
pub mod config;
pub mod input;
pub mod order;
pub mod pty;
pub mod shell;
pub mod text;
pub mod ui;
