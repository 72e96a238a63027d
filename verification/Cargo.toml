[package]
name = "bookstore"
version = "0.1.0"
edition = "2021"
publish = false

[dependencies]
anyhow = "1"
axum = "*"
dotenv = "0.15"
serde = { version = "1", features = ["derive"] }
sqlx = { version = "*", features = ["runtime-tokio", "sqlite", "macros"] }
tokio = { version = "1", features = ["rt-multi-thread", "macros", "net"] }
