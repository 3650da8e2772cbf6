[package]
name = "bsh"
version = "0.1.0"
edition = "2021"
publish = false

[dependencies]
clap = "4"
colored = "2"
crossterm = "0.25"
dirs-next = "2"
serde = { version = "1", features = ["derive"] }
serde_json = "1"
tui = { version = "0.19", default-features = false, features = ["crossterm"] }
