[package]
name = "nonce_guess"
version = "0.1.0"
edition = "2021"
publish = false

[dependencies]
redb = "*"
tokio = { version = "*", features = ["rt-multi-thread", "macros", "time"] }
reqwest = { version = "*", default-features = false }
serde = { version = "*", features = ["derive"] }
serde_json = "*"

[dev-dependencies]
uuid = { version = "*", features = ["v4"] }
