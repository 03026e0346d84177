//! Pure pieces of the platform adapters: key translation and the pixel
//! canvas of the candidate window.

pub mod canvas;
pub mod keys;
pub mod repeat;
pub mod xim;
