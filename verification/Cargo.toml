[package]
name = "rafter_reference_sharded_counter"
version = "0.1.0"
edition = "2021"
publish = false

[dependencies]
rafter = "0.0.2-alpha.1"
rafter-app = "0.0.2-alpha.1"
rafter-codec = "0.0.2-alpha.1"
rafter-crc32 = "0.0.2-alpha.1"
rafter-multiraft = "0.0.2-alpha.1"
rafter-runtime = "0.0.2-alpha.1"
rafter-service = "0.0.2-alpha.1"
rafter-storage = "0.0.2-alpha.1"
rafter-transport-tls = "0.0.2-alpha.1"
