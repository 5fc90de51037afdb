[package]
name = "wtransport_proto"
version = "0.1.0"
edition = "2021"
publish = false

[dependencies]
quinn = "0.10"
rustls = "0.21"
rustls-native-certs = "0.6"
