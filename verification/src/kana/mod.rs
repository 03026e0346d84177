//! Kana conversion: tables and their text format.

pub mod builtin;
pub mod parser;
pub mod table;
