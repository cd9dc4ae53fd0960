[package]
name = "criticality_bench"
version = "0.1.0"
edition = "2021"
publish = false

[dependencies]
clap = { version = "4", features = ["derive"] }
crossbeam-channel = "0.5"
csv = "1"
rayon = "1"
serde_json = "1"
thiserror = "*"
