[package]
name = "kafka_wire"
version = "0.1.0"
edition = "2021"
publish = false

[dependencies]
byteorder = "1"
serde = { version = "1", features = ["derive"] }
uuid = "1"
varint-rs = "*"

[dev-dependencies]
proptest = { version = "1", default-features = false, features = ["std"] }
