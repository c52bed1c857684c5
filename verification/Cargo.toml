[package]
name = "thruster_ssl"
version = "0.1.0"
edition = "2021"
publish = false

[dependencies]
async-trait = "0.1"
futures = "0.3"
native-tls = "0.2"
tokio = { version = "1", features = ["net", "rt", "rt-multi-thread"] }
tokio-native-tls = "0.3"
tokio-stream = { version = "0.1", features = ["net"] }
tokio-util = { version = "0.7", features = ["codec"] }
