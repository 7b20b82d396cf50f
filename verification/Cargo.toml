[package]
name = "fcp_rust"
version = "0.1.0"
edition = "2021"
publish = false

[dependencies]
libc = "0.2"
rmcp = { version = "*", features = ["server", "transport-io", "macros"] }
schemars = "*"
serde = { version = "1", features = ["derive"] }
serde_json = "1"
thiserror = "*"
tokio = { version = "1", features = ["full"] }
tracing = "0.1"
tracing-subscriber = "0.3"
url = "2"
