[package]
name = "kweebitect"
version = "0.1.0"
edition = "2021"
publish = false

[dependencies]
serde = { version = "1", features = ["derive"] }
serde_json = "1"
indexmap = { version = "2", features = ["serde"] }
clap = { version = "4", features = ["derive"] }
color-eyre = "0.6"
better-panic = "0.3"
ratatui = "*"
itertools = "*"
strum = { version = "*", features = ["derive"] }
tui-widget-list = "*"
