[package]
name = "simple_runtime"
version = "0.1.0"
edition = "2021"
publish = false

[dependencies]
async-fs = "1"
async-io = "1"
crossbeam = "0.8"
futures = "0.3"
nix = { version = "0.27", features = ["fs"] }
num_cpus = "1"
once_cell = "1"
polling = "2"
scoped-tls = "1"
socket2 = "0.5"
waker-fn = "1"
