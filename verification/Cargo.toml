[package]
name = "moq-transport"
version = "0.1.0"
edition = "2021"
publish = false

[dependencies]
anyhow = "1"
bytes = "1"
futures = "0.3"
log = "0.4"
tokio = { version = "1", default-features = false, features = ["macros", "rt", "sync"] }
webtransport-generic = "*"
