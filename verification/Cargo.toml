[package]
name = "lj_kernel"
version = "0.1.0"
edition = "2021"
publish = false

[dependencies]
rand = "0.8"
rayon = "1"
crossbeam-channel = "0.5"
thread_local = "1"
num-traits = "0.2"
