[package]
name = "focus_capture"
version = "0.1.0"
edition = "2021"
publish = false

[dependencies]
crossbeam-channel = "0.5"
rustyline = { version = "*", default-features = false }
show-image = { version = "0.13", default-features = false }
