[package]
name = "polzat"
version = "0.1.0"
edition = "2021"
publish = false

[dependencies]
regex = "=1.13.1"
curl = "=0.4.51"
docopt = "=0.7.0"
grpc = "=0.8.3"
protobuf = "2"
futures = "0.3"
bytes = "0.5"
rustc-serialize = "=0.3.25"
threadpool = "=1.8.1"
