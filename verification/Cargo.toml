[package]
name = "stylus_replay"
version = "0.1.0"
edition = "2021"
publish = false

[dependencies]
alloy-primitives = { version = "*", default-features = false }
clap = { version = "4", features = ["derive"] }
ethers-core = { version = "2", default-features = false }
ethers-providers = { version = "2" }
eyre = "*"
libloading = "*"
rustc-host = "*"
serde_json = "1"
tokio = { version = "1", features = ["rt", "macros"] }
