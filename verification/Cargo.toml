[package]
name = "tpt-diskview"
version = "0.1.0"
edition = "2021"
publish = false

[dependencies]
blake3 = "=1.8.7"
ignore = "=0.4.34"
rayon = "=1.12.0"
serde = { version = "=1.0.229", features = ["derive"] }
serde_json = "=1.0.154"
thiserror = "=2.0.21"
trash = "=5.2.9"
ico = "=0.6.0"
winapi = { version = "0.3", features = ["fileapi", "handleapi", "winnt", "minwindef"] }
