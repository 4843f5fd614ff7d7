use vstd::prelude::*;

pub mod bitmatrix;
pub mod font;
pub mod frame_laws;
pub mod framebuffer;
pub mod layout;
pub mod paint;
pub mod rendering_backend;
pub mod state;
pub mod text;

verus! {

} // verus!
