[package]
name = "extension_catalog"
version = "0.1.0"
edition = "2021"
publish = false

[dependencies]
futures = "0.3"
indexmap = { version = "2", features = ["serde"] }
reqwest = { version = "0.11", features = ["json"] }
serde = { version = "1", features = ["derive"] }
serde_json = "1"
ssri = "9"
tokio = { version = "1", features = ["macros", "rt-multi-thread", "signal"] }
