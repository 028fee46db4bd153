[package]
name = "story_store"
version = "0.1.0"
edition = "2021"
publish = false

[dependencies]
futures = "*"
serde = { version = "*", features = ["derive"] }
sqlx = { version = "*", default-features = false, features = ["sqlite", "runtime-tokio"] }
tokio = { version = "*", default-features = false, features = ["rt-multi-thread"] }
