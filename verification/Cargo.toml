[package]
name = "feeless"
version = "0.1.0"
edition = "2021"
publish = false

[dependencies]
frame-support = "49.0.0"
frame-system = "49.0.0"
libsecp256k1 = "0.7.2"
parity-scale-codec = { version = "3.7.5", features = ["derive"] }
scale-info = { version = "2.11.6", features = ["derive"] }
sp-core = "43.0.0"
sp-io = "49.0.0"
sp-runtime = "49.0.0"
sp-std = "14.0.0"
