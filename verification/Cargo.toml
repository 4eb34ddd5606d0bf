[package]
name = "paranoid_pirate"
version = "0.1.0"
edition = "2021"
publish = false

[dependencies]
zmq = "*"
rand = "*"
