//! The decisions behind the commands `bookmark advance`, `histedit` and
//! `workspace forget` of a version-control system.
//!
//! Each command is a function from a state and an event to the next state and
//! an action. Whoever runs the command carries out the action and reports back
//! what came of it.

pub mod bookmark;
pub mod commit;
pub mod dag_walk;
pub mod error;
pub mod histedit;
pub mod id_map;
pub mod revision;
pub mod text;
pub mod workspace;
