[package]
name = "self_healing_vector_db"
version = "0.1.0"
edition = "2021"
publish = false

[dependencies]
axum = "*"
bytemuck = "*"
hnsw_rs = "*"
rusqlite = { version = "*", features = ["bundled"] }
serde = { version = "*", features = ["derive"] }
serde_json = "*"
thiserror = "*"
tokio = { version = "*", features = ["macros", "rt-multi-thread", "sync", "net"] }
tracing = "*"
tracing-subscriber = { version = "*", features = ["env-filter"] }

[dev-dependencies]
tempfile = "*"
