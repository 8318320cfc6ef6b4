[package]
name = "flock_runtime"
version = "0.1.0"
edition = "2021"
publish = false

[dependencies]
arrow = { version = "=60.0.0", default-features = false }
async-trait = "=0.1.92"
datafusion = { version = "*", default-features = false }
hashbrown = "=0.17.1"
serde = { version = "=1.0.229", features = ["derive"] }
serde_json = "=1.0.154"
snap = "=1.1.2"
