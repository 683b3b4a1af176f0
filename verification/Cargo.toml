[package]
name = "alfred"
version = "0.1.0"
edition = "2021"
publish = false

[dependencies]
regex = "1"
sha2 = "0.10"
hex = "0.4"
dirs = "*"
mpatch = "*"
serde = { version = "1", features = ["derive"] }
serde_json = "1"
chrono = "0.4"
fern = "*"
log = "0.4"
zip = "*"
tantivy = "*"
sysinfo = "*"
ignore = "0.4"
uuid = { version = "1", features = ["v4"] }
tokio = { version = "1", features = ["rt-multi-thread", "macros"] }
thiserror = "*"
anyhow = "1"
