[package]
name = "bson_codec"
version = "0.1.0"
edition = "2021"
publish = false

[dependencies]
tonic = "*"
tonic-build = "*"
bytes = "*"

[dev-dependencies]
bson = "*"
