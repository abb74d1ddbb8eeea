[package]
name = "rust_arb_bot"
version = "0.1.0"
edition = "2021"
publish = false

[dependencies]
serde = { version = "1", features = ["derive"] }
serde_json = "1"
tokio = { version = "1", features = ["full"] }
crossbeam-channel = "0.5"
log = "0.4"
log4rs = "1"
reqwest = "0.12"
tokio-tungstenite = "*"
futures-util = "0.3"
async-trait = "0.1"
signal-hook = "0.3"
structopt = "0.3"
strum_macros = "*"
ta = "0.5"
actix-web = "4"
actix-web-prometheus = "*"
etcd-client = "*"
