[package]
name = "execution_engine"
version = "0.1.0"
edition = "2021"
publish = false

[dependencies]
crossbeam-queue = "0.3"
rand = "0.8"
