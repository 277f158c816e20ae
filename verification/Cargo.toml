[package]
name = "monotron"
version = "0.1.0"
edition = "2021"
publish = false

[dependencies]
base64 = "0.13"
bb8 = "*"
bb8-postgres = "*"
bytes = "1"
chrono = "0.4"
crossbeam-channel = "0.5"
envconfig = "*"
futures = "0.3"
once_cell = "1"
rand = "0.8"
serde = { version = "1", features = ["derive"] }
serde_json = "1"
tokio = { version = "1", features = ["rt-multi-thread", "macros"] }
tokio-postgres = "0.7"
url = "2"
warp = "0.3"
xid = "*"
