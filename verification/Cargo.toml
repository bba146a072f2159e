[package]
name = "gcs_reader"
version = "0.1.0"
edition = "2021"
publish = false

[dependencies]
reqwest = { version = "*", default-features = false, features = ["blocking", "rustls-tls"] }
gcp_auth = "*"
tokio = { version = "*", features = ["rt-multi-thread"] }
serde_json = "*"
