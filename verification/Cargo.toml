[package]
name = "aero_compiler"
version = "0.1.0"
edition = "2021"
publish = false

[dependencies]
csv = "1.3"
serde = { version = "1", features = ["derive"] }
clap = { version = "4", features = ["derive"] }
