[package]
name = "hypricons"
version = "0.1.0"
edition = "2021"
publish = false

[dependencies]
dirs = "5"
serde = { version = "1", features = ["derive"] }
serde_json = "1"
clap = { version = "4", features = ["derive"] }
glob = "0.3"
relm4 = { version = "0.9", features = ["gnome_46"] }
gtk4-layer-shell = "0.4"
tracing = "0.1"
tracing-subscriber = "0.3"
