[package]
name = "flightctrl"
version = "0.1.0"
edition = "2021"
publish = false

[dependencies]
bitflags = "1"
nalgebra = { version = "0.32", default-features = false, features = ["std"] }
num-traits = "0.2"
serde = { version = "1", features = ["derive"] }
