[package]
name = "enigma"
version = "0.1.0"
edition = "2021"

[dependencies]
clap = "3.2"
