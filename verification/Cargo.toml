[package]
name = "ssl_log_tools"
version = "0.1.0"
edition = "2021"
publish = false

[dependencies]
byteorder = "1"
protobuf = "2"
clap = "2"
crossbeam = "0.7"
socket2 = "0.3"
chrono = "0.4"
indicatif = "*"
ndarray = "*"
petgraph = "*"
