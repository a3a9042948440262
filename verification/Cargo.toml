[package]
name = "makerpnp"
version = "0.1.0"
edition = "2021"
publish = false

[dependencies]
regex = "1"
heck = "0.5"
anyhow = "1"
thiserror = "1"
serde = { version = "1", features = ["derive"] }
serde_json = "1"
csv = "1"
rust_decimal = "1"
clap = { version = "4", features = ["derive"] }
termtree = "0.5"
time = { version = "0.3", features = ["serde-well-known"] }
tracing = "0.1"
