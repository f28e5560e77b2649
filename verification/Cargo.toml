[package]
name = "unemups4"
version = "0.1.0"
edition = "2021"
publish = false

[dependencies]
ash = "0.38"
crossbeam-channel = "0.5"
gilrs = "0.11"
rspirv = "0.12"
winit = "0.29"
