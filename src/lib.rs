pub mod config;
pub mod display;
pub mod error;
pub mod input;
pub mod scanner;
pub mod session;
pub mod shutdown;
pub mod terminal;
