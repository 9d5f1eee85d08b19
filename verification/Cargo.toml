[package]
name = "rxsync"
version = "0.1.0"
edition = "2021"
publish = false

[dependencies]
adler = "1"
glob = "0.3"
serde = { version = "1", features = ["derive"] }
ssh2 = "0.9"
toml = "0.5"
