//! Integer geometry shared by the drawing and simulation code.

pub mod vector;
