//! Event routing and widget state logic for a small immediate-mode GUI toolkit.
pub mod font;
pub mod font_file;
pub mod handlers;
pub mod layout;
pub mod ui;
pub mod util;
