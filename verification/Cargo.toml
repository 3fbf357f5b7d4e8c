[package]
name = "posix_tools"
version = "0.1.0"
edition = "2021"
publish = false

[dependencies]
glob = "0.3"
regex = "1"
chrono = "0.4"
encoding_rs = "0.8"
libc = "0.2"
unicode-width = "0.1"
