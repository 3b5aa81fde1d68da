//! A side-by-side viewer for unified git diffs: parsing, wrapping into
//! aligned rows, and the navigation state of the viewer.

pub mod text;
pub mod diff;
pub mod render;
pub mod theme;
pub mod app;
pub mod cli;
pub mod input;
pub mod keys;
pub mod ui;
pub mod layout;
