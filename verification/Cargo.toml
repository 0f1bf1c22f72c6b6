[package]
name = "omniconsole"
version = "0.1.0"
edition = "2021"
publish = false

[dependencies]
unicode-bidi = "=0.3.18"
arabic_reshaper = "=0.4.2"
serde = { version = "=1.0.229", features = ["derive"] }
toml = "=0.8.23"
dirs = "=5.0.1"
tokio = { version = "=1.54.1", features = ["sync"] }
portable-pty = "=0.8.1"
env_logger = "=0.11.11"
iced = { version = "=0.13.1", default-features = false, features = ["tiny-skia"] }
