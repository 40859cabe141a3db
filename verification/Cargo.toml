[package]
name = "tiny_runtime"
version = "0.1.0"
edition = "2021"
publish = false

[dependencies]
epoll = "4.3"
signal-hook = "0.3"
