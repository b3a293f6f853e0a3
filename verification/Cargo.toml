[package]
name = "snug"
version = "0.1.0"
edition = "2021"
publish = false

[dependencies]
clap = { version = "=4.6.7", features = ["derive"] }
ctrlc = "=3.5.2"
dirs = "=7.0.0"
nix = { version = "=0.31.3", features = ["signal", "process"] }
notify = "=8.2.0"
rune-cfg = "=0.7.1"
serde = { version = "=1.0.229", features = ["derive"] }
smithay-client-toolkit = { version = "=0.21.1", default-features = false }
wayland-client = "=0.31.15"
