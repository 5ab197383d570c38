[package]
name = "yaml_test_runner"
version = "0.1.0"
edition = "2021"
publish = false

[dependencies]
serde_yaml = "*"
serde_json = "*"
anyhow = "*"
clap = "*"
log = "*"
simple_logger = "*"
semver = "*"
reqwest = { version = "*", default-features = false, features = ["blocking", "json", "rustls-tls"] }
