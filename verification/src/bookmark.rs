//! Commands on bookmarks.

pub mod advance;
