//! Parts of the OpenGL ES implementation.
pub mod buffers;
pub mod constants;
pub mod draw;
pub mod gles1_on_gles2;
pub mod laws;
pub mod pipeline;
