[package]
name = "postflop_core"
version = "0.1.0"
edition = "2021"
publish = false

[dependencies]
rayon = "*"
parking_lot = "*"
serde = { version = "*", features = ["derive"] }
serde_json = "*"
axum = "*"
tokio = { version = "*", features = ["full"] }
clap = { version = "*", features = ["derive"] }
sysinfo = "*"
