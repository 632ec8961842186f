[package]
name = "svreader"
version = "0.1.0"
edition = "2021"
publish = false

[dependencies]
anyhow = "=1.0.104"
clap = { version = "=4.6.7", features = ["derive", "env"] }
crossterm = "=0.29.0"
image = { version = "=0.25.10", default-features = false, features = ["png"] }
libc = "=0.2.191"
lru = "=0.19.0"
parking_lot = "=0.12.5"
serde = { version = "=1.0.229", features = ["derive"] }
tracing = "=0.1.44"
tracing-subscriber = { version = "=0.3.23", features = ["env-filter"] }
