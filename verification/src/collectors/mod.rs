//! The decisions of the collectors: what each observation of the desktop
//! becomes on the event bus.

pub mod browser;
pub mod calendar;
pub mod clipboard;
pub mod filesystem;
pub mod laws;
pub mod process;
pub mod terminal;
pub mod window;
