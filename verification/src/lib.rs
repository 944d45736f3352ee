pub mod text;
pub mod order;
pub mod config;
pub mod errors;
pub mod host;
pub mod optional_modules;
pub mod sandbox_engine;
pub mod proxy;
pub mod install;
pub mod monitor;
pub mod tui;
pub mod profile;
pub mod cli;
