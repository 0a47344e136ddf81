[package]
name = "desyncd"
version = "0.1.0"
edition = "2021"
publish = false

[dependencies]
fastrand = "2"
anyhow = "1"
async-trait = "0.1"
clap = { version = "4", features = ["derive"] }
libc = "0.2"
rusqlite = { version = "0.31", features = ["bundled"] }
rustls = { version = "0.23", default-features = false, features = ["ring", "std", "tls12"] }
serde = { version = "1", features = ["derive"] }
serde_json = "1"
tokio = { version = "1", features = ["full"] }
tokio-rustls = { version = "0.26", default-features = false, features = ["ring", "tls12"] }
toml = "0.8"
tracing = "0.1"
tracing-subscriber = { version = "0.3", features = ["env-filter"] }
webpki-roots = "0.26"
