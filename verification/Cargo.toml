[package]
name = "zkvm-host"
version = "0.1.0"
edition = "2021"
publish = false

[dependencies]
alloy-primitives = { version = "*", default-features = false, features = ["std"] }
clap = { version = "4", features = ["derive"] }
rkyv = { version = "0.7", features = ["validation", "archive_le"] }
