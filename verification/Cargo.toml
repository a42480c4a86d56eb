[package]
name = "collector_controller"
version = "0.1.0"
edition = "2021"
publish = false

[dependencies]
egui = "0.27"
serialport = { version = "4", default-features = false }
