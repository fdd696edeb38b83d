//! A keyed arena of byte buffers, and the checked preparation of two stored
//! RGB images for a perceptual comparison.

pub mod arena;
pub mod compare;
pub mod laws;
pub mod pixels;
