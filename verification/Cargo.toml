[package]
name = "workspace_engine"
version = "0.1.0"
edition = "2021"
publish = false

[dependencies]
unicode-width = "=0.2.2"
terminal_size = "=0.4.4"
urlencoding = "=2.1.3"
git-url-parse = "=0.6.0"
sha2 = "=0.11.1"
infer = "=0.22.0"
base64 = "=0.23.1"
gix-filter = { version = "=0.36.1", features = ["sha1"] }
toml = "=1.1.8"
serde = { version = "=1.0.229", features = ["derive"] }
rusqlite = { version = "=0.40.2", features = ["bundled"] }
anyhow = "=1.0.104"
