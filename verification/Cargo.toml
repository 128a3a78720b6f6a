[package]
name = "rusty_chat"
version = "0.1.0"
edition = "2021"
publish = false

[dependencies]
sha1 = "*"
rustc-serialize = "*"
rand = "*"
serde = { version = "*", features = ["derive"] }
serde_json = "*"
