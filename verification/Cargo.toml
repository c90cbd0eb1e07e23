[package]
name = "plasma_stream"
version = "0.1.0"
edition = "2021"
publish = false

[dependencies]
hex = "0.4"
rand = "0.8"
tokio = { version = "1", features = ["full"] }
structopt = "0.3"
thiserror = "1"
tracing = "0.1"
tracing-subscriber = "0.3"
