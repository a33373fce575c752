[package]
name = "tofi"
version = "0.1.0"
edition = "2021"
publish = false

[dependencies]
unicode-normalization = "0.1"
clap = { version = "4", features = ["derive"] }
clap_complete = "4"
clap_complete_nushell = "4"
serde = { version = "1", features = ["derive"] }
toml = "0.8"
walkdir = "2"
nix = { version = "0.29", features = ["fs"] }
