[package]
name = "payengine"
version = "0.1.0"
edition = "2021"
publish = false

[dependencies]
atoi = "2"
memchr = "2"
thiserror = "1"
tracing = "0.1"
tracing-subscriber = "0.3"
