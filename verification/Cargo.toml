[package]
name = "pico_de_gallo"
version = "0.1.0"
edition = "2021"
publish = false

[dependencies]
fixed = "1"
clap = { version = "4", features = ["derive"] }
tokio = { version = "1", features = ["rt-multi-thread", "sync", "macros", "time"] }
ratatui = "*"
crossterm = "*"
color-eyre = "0.6"
tabled = "*"
serde = { version = "1", features = ["derive"] }
postcard = { version = "1", features = ["alloc"] }
