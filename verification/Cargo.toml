[package]
name = "jaguars"
version = "0.1.0"
edition = "2021"
publish = false

[dependencies]
itertools = "0.12"
ordered-float = "4"
serde_json = "1"
clap = { version = "4", features = ["derive"] }
log = "0.4"
fern = "0.6"
humantime = "2"
once_cell = "1"
rand = { version = "0.8", features = ["small_rng"] }
svg = "*"
