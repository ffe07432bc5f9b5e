pub mod proxy;
pub mod session;
