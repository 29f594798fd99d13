[package]
name = "reventor"
version = "0.1.0"
edition = "2021"
rust-version = "1.95"
publish = false

[dependencies]
chrono = "=0.4.45"
dotenv = "=0.15.0"
log = "0.4"
pretty_env_logger = "=0.5.0"
rusqlite = { version = "*", features = ["bundled"] }
takecell = "=0.1.1"
teloxide = { version = "=0.12.2", features = ["macros"] }
tokio = { version = "1", features = ["rt-multi-thread", "macros", "sync", "time"] }

[dev-dependencies]
regex = "1"
