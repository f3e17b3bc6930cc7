[package]
name = "trading_stack"
version = "0.1.0"
edition = "2021"
publish = false

[dependencies]
clap = { version = "4", features = ["derive"] }
ctrlc = "3"
socket2 = { version = "0.5", features = ["all"] }
