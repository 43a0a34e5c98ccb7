[package]
name = "neural_net"
version = "0.1.0"
edition = "2021"
publish = false

[dependencies]
byteorder = "1"
log = "0.4"
ndarray = "0.16"
rand = "0.8"
reqwest = { version = "0.12", default-features = false, features = ["blocking"] }
simple-error = "0.3"
