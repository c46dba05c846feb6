[package]
name = "mm1"
version = "0.1.0"
edition = "2021"
publish = false

[dependencies]
slotmap = "=1.1.1"
bimap = "=0.6.3"
sha3 = "=0.10.9"
bincode = { version = "=2.0.1", features = ["serde"] }
serde = { version = "=1.0.229", features = ["derive"] }
serde_json = "=1.0.154"
tokio = { version = "=1.54.1", features = ["io-util", "rt", "macros", "net", "time"] }
rand = "=0.9.5"
rmp-serde = "1"
