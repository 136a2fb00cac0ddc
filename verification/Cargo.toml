[package]
name = "qortex"
version = "0.1.0"
edition = "2021"
publish = false

[dependencies]
anyhow = "=1.0.104"
revision = "=0.30.0"
storekey = "=0.11.0"
tokio = { version = "=1.54.1", features = ["sync"] }
uuid = { version = "=1.29.0", features = ["v7"] }

[dev-dependencies]
half = "=2.7.1"
