[package]
name = "tracing_bridge"
version = "0.1.0"
edition = "2021"
publish = false

[dependencies]
log = "0.4"
tracing = "0.1"
tracing-subscriber = "0.3"
