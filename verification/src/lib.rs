//! The verified core of an emulator for early iPhone OS apps.
//!
//! - [mem]: guest memory, with its pointers, its allocator and C strings.
//! - [dyld], [mach_o] and [libc]: which libraries an app sees, and where their
//!   symbols are.
//! - [environment]: decisions that are made when an app is started.
//! - [trainer] and [trainer_ui]: finding and changing values in a running app.
//! - [gles]: OpenGL ES 1.1 on top of OpenGL ES 2.0.
//! - [frameworks]: parts of the frameworks that apps link to.
//! - [numeric] and [text]: numbers as text and as bit patterns.
pub mod dyld;
pub mod environment;
pub mod frameworks;
pub mod gles;
pub mod libc;
pub mod mach_o;
pub mod mem;
pub mod numeric;
pub mod text;
pub mod text_laws;
pub mod trainer;
pub mod trainer_ui;
