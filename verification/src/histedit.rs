//! Interactive editing of history.

pub mod command;
pub mod graph;
pub mod screen;
pub mod state;
pub mod styled;
pub mod tui;
