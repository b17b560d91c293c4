//! Parts of the C standard library.
pub mod dlfcn;
