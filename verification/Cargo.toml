[package]
name = "cargo_scan"
version = "0.1.0"
edition = "2021"
publish = false

[dependencies]
sha2 = "=0.10.9"
regex = "=1.13.1"
petgraph = "=0.6.5"
proc-macro2 = { version = "=1.0.107", features = ["span-locations"] }
walkdir = "=2.5.0"
serde = { version = "=1.0.229", features = ["derive"] }
serde_json = "=1.0.154"
anyhow = "=1.0.104"
flate2 = "=1.1.10"
tar = "=0.4.46"
curl = "=0.4.51"
semver = { version = "=1.0.28", features = ["serde"] }
toml = "=0.8.23"
home = "=0.5.12"
syn = { version = "=3.0.9", features = ["full", "parsing", "printing"] }
quote = "=1.0.47"
