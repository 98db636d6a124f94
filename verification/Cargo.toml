[package]
name = "bevl"
version = "0.1.0"
edition = "2021"
publish = false

[dependencies]
lockfree = "=0.5.1"
once_cell = "=1.21.4"
parking_lot = "=0.12.5"
bevy = { version = "=0.7.0", default-features = false }
