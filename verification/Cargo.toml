[package]
name = "rf_distributed"
version = "0.1.0"
edition = "2021"
publish = false

[dependencies]
rf-core = "*"
rufi_core = "*"
serde = { version = "1", features = ["derive"] }
serde_json = "1"
tokio = { version = "1", features = ["full"] }
rumqttc = "*"
async-trait = "*"
bytes = "1"
