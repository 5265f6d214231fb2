[package]
name = "comet_core"
version = "0.1.0"
edition = "2021"
publish = false

[dependencies]
memx = "*"
im = "*"
parking_lot = "*"
atomic = "*"
