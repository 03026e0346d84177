//! Numeric candidates (`#0`–`#c` markers of SKK dictionaries).

pub mod types;
pub mod convert;
pub mod template;
