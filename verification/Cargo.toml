[package]
name = "taigachat_core"
version = "0.1.0"
edition = "2021"
publish = false

[dependencies]
base64 = "0.13"
clap = { version = "4", features = ["derive"] }
dirs = "5"
dunce = "1"
flate2 = "1"
futures-util = "0.3"
hyper = { version = "0.14", features = ["full"] }
nix = "0.26"
open = "5"
rand = "0.8"
reqwest = { version = "0.11", default-features = false }
serde = { version = "1", features = ["derive"] }
serde_json = "1"
sha2 = "0.10"
tar = "0.4"
tokio = { version = "1", features = ["full"] }
tokio-tungstenite = "0.20"
url = "2"
