[package]
name = "chan"
version = "0.1.0"
edition = "2021"
publish = false

[dependencies]
chrono = "=0.4.45"
serde_json = "=1.0.154"
strum = { version = "=0.26.3", features = ["derive"] }
strum_macros = "=0.26.4"
indexmap = "=2.14.2"
clap = { version = "=4.6.7", features = ["derive"] }
