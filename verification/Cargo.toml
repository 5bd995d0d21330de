[package]
name = "amplifier_foundation"
version = "0.1.0"
edition = "2021"
publish = false

[dependencies]
sha2 = "=0.10.9"
indexmap = "=2.14.2"
serde_yaml_ng = "=0.10.0"
serde_json = "=1.0.154"
dirs = "=5.0.1"
tempfile = "=3.27.0"
glob = "=0.3.4"
chrono = { version = "=0.4.45", default-features = false, features = ["clock", "std"] }
thiserror = "=1.0.69"
tokio = { version = "=1.54.1", features = ["fs", "process", "rt", "macros"] }
zip = { version = "=2.6.1", default-features = false, features = ["deflate"] }
reqwest = { version = "=0.12.28", default-features = false }
