[package]
name = "tox"
version = "0.1.0"
edition = "2021"
publish = false

[dependencies]
futures = "0.1"
nom = "3"
parking_lot = "0.12"
rand = "0.8"
