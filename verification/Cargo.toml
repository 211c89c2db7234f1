[package]
name = "aw_tauri"
version = "0.1.0"
edition = "2021"
publish = false

[dependencies]
shell-words = "1"
chrono = { version = "0.4", default-features = false, features = ["clock"] }
nix = { version = "*", features = ["signal"] }
appdirs = "*"
notify = "*"
log = "0.4"
fern = "*"
