[package]
name = "lez_registry"
version = "0.1.0"
edition = "2021"
publish = false

[dependencies]
borsh = "1"
hex = "0.4"
base64 = "0.22"
serde = { version = "1", features = ["derive"] }
serde_json = "1"
anyhow = "1"
clap = { version = "4.5", features = ["derive", "env"] }
clap_complete = "4.5"
tokio = { version = "1", features = ["full"] }
reqwest = { version = "0.12", default-features = false }

[dev-dependencies]
borsh = { version = "1", features = ["derive"] }
