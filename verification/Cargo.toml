[package]
name = "vpm_shop"
version = "0.1.0"
edition = "2021"
publish = false

[dependencies]
anyhow = "1"
axum = { version = "0.8", features = ["multipart"] }
flate2 = "1"
hex = "0.4"
serde = { version = "1", features = ["derive"] }
serde_json = "1"
sha2 = "*"
tar = { version = "0.4", default-features = false }
tokio = { version = "1", features = ["macros", "rt-multi-thread", "net"] }
zip = { version = "2", default-features = false, features = ["deflate"] }
