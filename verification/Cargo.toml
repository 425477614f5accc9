[package]
name = "smelt"
version = "0.1.0"
edition = "2021"
publish = false

[dependencies]
sha1 = "=0.10.7"
hex = "=0.4.3"
serde = { version = "=1.0.229", features = ["derive"] }
serde_json = "=1.0.154"
serde_yaml = "=0.9.34"
tokio = { version = "=1.54.1", features = ["fs", "io-util", "macros", "process", "rt", "rt-multi-thread", "sync", "time"] }
async-trait = "=0.1.92"
anyhow = "=1.0.104"
thiserror = "=1.0.69"
allocative = "=0.3.6"
dupe = "=0.9.1"
prost = "=0.12.6"
pyo3 = "=0.21.2"
