//! Menu bar / tray behaviour that does not need the windowing toolkit.
pub mod autostart;
pub mod tray;
pub mod wake;
