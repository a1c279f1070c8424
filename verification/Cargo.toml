[package]
name = "mcpg_plugin_identity_ldap"
version = "0.1.0"
edition = "2021"
publish = false

[dependencies]
async-trait = "*"
base64 = "0.22"
ldap3 = { version = "0.11", default-features = false, features = ["tls-rustls"] }
metrics = "*"
serde = { version = "1", features = ["derive"] }
serde_json = "1"
thiserror = "*"
tokio = { version = "1", features = ["rt", "time", "net"] }
tracing = "0.1"
