//! A pixel canvas with exactly specified integer rasterisation, and the
//! discrete decisions of a two-dimensional ball simulation: what the pointer
//! selects and where the scene starts.

pub mod grfx;
pub mod interaction;
pub mod math;
pub mod scene;
