[package]
name = "buildkit"
version = "0.1.0"
edition = "2021"
publish = false

[dependencies]
base64 = "0.22"
directories = "*"
dockerfile = "*"
flate2 = "1"
futures-util = "0.3"
libc = "0.2"
oci-distribution = { version = "0.11", default-features = false, features = ["rustls-tls"] }
reqwest = { version = "0.12", default-features = false, features = ["rustls-tls"] }
serde = { version = "1", features = ["derive"] }
serde_json = "1"
sha2 = "0.10"
tar = "0.4"
thiserror = "*"
tracing = "0.1"
