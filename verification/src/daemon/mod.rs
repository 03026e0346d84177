//! Daemon configuration: the `config.toml` model, its validation, and the
//! engine settings derived from it.

pub mod config;
pub mod session;
