[package]
name = "csyn"
version = "0.7.0"
edition = "2021"
publish = false

[dependencies]
anyhow = "1"
base64 = "=0.22.1"
clap = { version = "4", features = ["derive", "env"] }
ctrlc = "3"
flatbuffers = "25"
serde = { version = "1", features = ["derive"] }
serde_json = "=1.0.154"
synapse_fbs = { version = "=0.8.0", features = ["mcap"] }
uuid = { version = "=1.29.0", features = ["v4"] }
zenoh = { version = "=1.10.2", default-features = false, features = ["transport_tcp"] }
