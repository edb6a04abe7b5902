[package]
name = "substreams"
version = "0.1.0"
edition = "2021"
publish = false

[dependencies]
anyhow = "1"
bigdecimal = "0.3"
hex-literal = "0.3"
num-bigint = "0.4"
num-traits = "0.2"
prost = "0.11"
prost-types = "0.11"
thiserror = "1"
