[package]
name = "easyshare"
version = "0.1.0"
edition = "2021"
publish = false

[dependencies]
anyhow = "1"
arboard = "3"
image = { version = "0.25", default-features = false, features = ["png"] }
jni = "0.21"
log = "0.4"
serde = { version = "1", features = ["derive"] }
serde_json = "1"
sha2 = "0.10"
socket2 = "0.5"
tokio = { version = "1", features = ["rt-multi-thread", "net", "fs", "io-util", "time", "sync", "macros", "process"] }

[dev-dependencies]
prost = "0.13"
