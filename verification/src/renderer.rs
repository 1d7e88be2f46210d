//! The rendering side of the event loop: a backend is started once and then
//! driven every frame; draw calls describe what it paints.
use vstd::prelude::*;

verus! {

/// A rendering backend, started by the event loop.
pub trait Renderer {
    fn run();
}

/// One drawing instruction for a rendering backend.
pub enum DrawCall {
    DrawRect { x: u16, y: u16, width: u16, height: u16, color: (u8, u8, u8) },
}

/// A rectangle in device units, as a vertex buffer holds it.
pub struct Quad {
    pub pos: (u32, u32),
    pub size: (u32, u32),
}

} // verus!
