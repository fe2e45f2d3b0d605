//! Commands on workspaces.

pub mod forget;
pub mod worktree;
