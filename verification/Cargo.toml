[package]
name = "vault_web"
version = "0.1.0"
edition = "2021"
publish = false

[dependencies]
anyhow = "=1.0.104"
askama = "=0.12.1"
axum = "=0.7.9"
comrak = { version = "=0.51.0", default-features = false }
html-escape = "=0.2.15"
indexmap = "=2.14.2"
serde = { version = "=1.0.229", features = ["derive"] }
tantivy = "=0.22.1"
tokio = { version = "=1.54.1", features = ["full"] }
tower-http = { version = "=0.5.2", features = ["fs"] }
unicode-segmentation = "=1.13.3"
