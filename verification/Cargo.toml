[package]
name = "spatial_annotation_sync"
version = "0.1.0"
edition = "2021"
publish = false

[dependencies]
uuid = { version = "1", features = ["v4"] }
chrono = "0.4"
shell-words = "1"
serde = { version = "1", features = ["derive"] }
serde_json = "1"
anyhow = "1"
thiserror = "2"
clap = { version = "4", features = ["derive"] }
colored = "2"
tokio = { version = "1", features = ["io-util", "net", "rt", "macros"] }
