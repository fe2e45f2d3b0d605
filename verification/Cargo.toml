[package]
name = "jj_commands"
version = "0.1.0"
edition = "2021"
publish = false

[dependencies]
ansi-to-tui = "*"
clap = { version = "*", features = ["derive"] }
clap_complete = { version = "*", features = ["unstable-dynamic"] }
crossterm = "*"
dunce = "*"
itertools = "*"
ratatui = "*"
sapling-renderdag = "*"
tracing = "*"
