[package]
name = "torrent_merge"
version = "0.1.0"
edition = "2021"
publish = false

[dependencies]
env_logger = "*"
hex = "0.4"
itertools = "*"
log = "0.4"
qbit-rs = "*"
sha1 = "0.10"
tokio = { version = "1", features = ["macros", "rt-multi-thread"] }
