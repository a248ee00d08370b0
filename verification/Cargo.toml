[package]
name = "model_parser_mcp"
version = "0.1.0"
edition = "2021"
publish = false

[dependencies]
serde_json = "1"
mini-moka = "0.10"
serde = { version = "1", features = ["derive"] }
flate2 = "1"
anyhow = "1"
uuid = "1"
schemars = "*"
rmcp = { version = "*", features = ["server", "macros"] }
sqlx = { version = "0.8", default-features = false, features = ["runtime-tokio", "postgres", "derive"] }
