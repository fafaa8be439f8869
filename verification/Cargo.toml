[package]
name = "oadig"
version = "0.2.0"
edition = "2021"
publish = false

[dependencies]
serde_json = { version = "1", features = ["preserve_order"] }
serde_yaml = "0.9"
serde_path_to_error = "0.1"
oas3 = "*"
regex = "1"
clap = { version = "4", features = ["derive"] }
anyhow = "1"
thiserror = "*"
