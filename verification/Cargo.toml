[package]
name = "totray"
version = "0.1.0"
edition = "2021"
publish = false

[dependencies]
image = { version = "0.25", default-features = false, features = ["png"] }
serde = { version = "1", features = ["derive"] }
serde_json = "1"
clap = { version = "4", features = ["derive"] }
dirs = "5"
notify-rust = "4"
ksni = "0.2"
gtk4 = { version = "0.7", features = ["v4_10"] }
glib = "0.18"
