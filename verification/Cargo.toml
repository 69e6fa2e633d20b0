[package]
name = "nomt"
version = "0.1.0"
edition = "2021"
publish = false

[dependencies]
anyhow = "1"
arrayvec = "0.7"
bitvec = "1"
clap = { version = "4", features = ["derive"] }
crossbeam-channel = "0.5"
crossbeam-queue = "0.3"
dashmap = "5"
fxhash = "0.2"
humantime = "2"
libc = "0.2"
parking_lot = "0.12"
ruint = "1"
threadpool = "1"
