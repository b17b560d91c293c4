//! UIKit.
pub mod ui_event;
