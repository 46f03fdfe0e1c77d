[package]
name = "learn_midi"
version = "0.1.0"
edition = "2021"
publish = false

[dependencies]
midly = "0.5"
midir = "*"
ws2818-rgb-led-spi-driver = "2"
clap = "3"
