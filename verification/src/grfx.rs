//! Drawing: colours, the mathematical model of a frame of pixels, the point
//! sequences of the shapes, and the canvas that draws them.

pub mod canvas;
pub mod color;
pub mod extent;
pub mod frame;
pub mod shapes;
