[package]
name = "sway-ir"
version = "0.1.0"
edition = "2021"
publish = false

[dependencies]
generational-arena = "0.2"
rustc-hash = "1.1"
