[package]
name = "smelt"
version = "0.1.0"
edition = "2021"
publish = false

[dependencies]
regex = "1"
sha1 = "0.10"
hex = "0.4"
uuid = { version = "1", features = ["v4"] }
rand = "0.8"
whoami = "1"
chrono = "0.4"
prost-types = "0.12"
tokio = { version = "1", features = ["full"] }
futures = "0.3"
serde = { version = "1", features = ["derive"] }
serde_yaml = "0.9"
serde_json = "1"
bollard = "0.16"
anyhow = "1"
thiserror = "1"
libproc = "0.14"
