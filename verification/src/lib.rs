//! Verified core of the y2skk SKK input method.

pub mod adapter;
pub mod config;
pub mod daemon;
pub mod dict;
pub mod engine;
pub mod install;
pub mod ipc;
pub mod kana;
pub mod key;
pub mod num;
pub mod settings;
pub mod text;
