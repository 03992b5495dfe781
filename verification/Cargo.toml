[package]
name = "block_report"
version = "0.1.0"
edition = "2021"
publish = false

[dependencies]
anyhow = "*"
chrono = "*"
dotenvy = "*"
log = "*"
pretty_env_logger = "*"
reqwest = { version = "*", default-features = false }
serde = { version = "*", features = ["derive"] }
serde_json = "*"
serde_path_to_error = "*"
tokio = { version = "*", features = ["macros", "rt-multi-thread"] }
