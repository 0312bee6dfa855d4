[package]
name = "rag_kb"
version = "0.1.0"
edition = "2021"
publish = false

[dependencies]
blake3 = "*"
hex = "*"
ulid = "*"
rusqlite = { version = "*", features = ["bundled"] }
serde = { version = "*", features = ["derive"] }
serde_json = "*"
thiserror = "*"
tokio = { version = "*", features = ["macros", "rt-multi-thread"] }
clap = { version = "*", features = ["derive"] }
dirs = "*"
toml = "*"
tracing = "*"
tracing-subscriber = "*"
