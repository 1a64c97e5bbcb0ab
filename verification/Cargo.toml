[package]
name = "codex_mbtx_contract"
version = "0.1.0"
edition = "2021"
publish = false

[dependencies]
serde = { version = "1", features = ["derive"] }
serde_json = "1"
sha2 = "0.10"
toml = "*"
libc = "0.2"
tiny_http = "*"
uuid = { version = "1", features = ["v4"] }
