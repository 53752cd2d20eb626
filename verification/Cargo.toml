[package]
name = "redis_cluster"
version = "0.1.0"
edition = "2021"
publish = false

[dependencies]
crc16 = "*"
rand = "*"
redis = "*"
