[package]
name = "cross_platform_clipboard"
version = "0.1.0"
edition = "2021"
publish = false

[dependencies]
sha2 = "*"
image = { version = "*", default-features = false, features = ["png"] }
base64 = "*"
rusqlite = { version = "*", features = ["bundled"] }
anyhow = "*"
arboard = "*"
directories = "*"
serde = { version = "*", features = ["derive"] }
toml = "*"
tracing = "*"
log = "*"
