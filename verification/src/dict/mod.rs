pub mod entry;
pub mod lisp;
pub mod file;
pub mod persist;
pub mod traits;
