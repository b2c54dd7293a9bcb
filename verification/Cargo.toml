[package]
name = "opendal-ext"
version = "0.1.0"
edition = "2021"
publish = false

[dependencies]
anyhow = "=1.0.104"
async-trait = "=0.1.92"
bytesize = "=2.7.0"
derive_setters = "=0.1.9"
futures-lite = "=2.6.1"
opendal = { version = "=0.57.0", default-features = false, features = ["auto-register-services", "executors-tokio", "layers-concurrent-limit", "layers-retry", "layers-throttle", "services-fs", "services-memory"] }
serde = { version = "=1.0.229", features = ["derive"] }
serde_with = "=3.24.0"
tokio = { version = "=1.54.1", features = ["macros", "rt", "sync"] }
