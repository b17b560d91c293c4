//! Parts of the frameworks that apps link to.
pub mod core_animation;
pub mod core_motion;
pub mod laws;
pub mod uikit;
