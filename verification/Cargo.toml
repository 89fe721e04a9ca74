[package]
name = "xtap_search"
version = "0.1.0"
edition = "2021"
publish = false

[dependencies]
serde_json = "1"
serde = { version = "1", features = ["derive"] }
dirs = "*"
futures = "0.3"
tokio = { version = "1", features = ["macros", "process", "rt-multi-thread", "time"] }
