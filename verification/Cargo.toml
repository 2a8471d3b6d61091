[package]
name = "leaf_search"
version = "0.1.0"
edition = "2021"
publish = false

[dependencies]
anyhow = "=1.0.104"
futures = "=0.3.34"
once_cell = "=1.21.4"
prometheus = { version = "=0.14.0", default-features = false }
rayon = "=1.12.0"
serde = { version = "=1.0.229", features = ["derive"] }
serde_json = "=1.0.151"
tantivy = { version = "=0.26.2", features = ["quickwit"] }
thiserror = "=2.0.21"
tokio = { version = "=1.53.2", features = ["rt-multi-thread", "sync", "time", "macros"] }
zstd = "=0.14.0"
