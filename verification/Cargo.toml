[package]
name = "stahrfish"
version = "0.1.0"
edition = "2021"
publish = false

[dependencies]
chess = "3.2"
clap = { version = "4", features = ["derive"] }
clearscreen = "*"
colored = "*"
figlet-rs = "*"
