[package]
name = "rspc_router"
version = "0.1.0"
edition = "2021"
publish = false

[dependencies]
serde = { version = "1", features = ["derive"] }
serde_json = "1"
specta = "2.0.0-rc.7"
specta-typescript = "*"
futures = "0.3"
futures-locks = "*"
tokio = { version = "1", features = ["sync", "rt"] }
