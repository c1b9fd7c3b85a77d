[package]
name = "wrkflw_ui"
version = "0.1.0"
edition = "2021"
publish = false

[dependencies]
serde_yaml = "0.9"
chrono = "0.4"
ratatui = "0.29"
tokio = { version = "1", features = ["process", "sync", "rt", "macros"] }
