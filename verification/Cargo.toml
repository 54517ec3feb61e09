[package]
name = "greeter"
version = "0.1.0"
edition = "2021"
publish = false

[dependencies]
bytes = "1"
tokio = { version = "1", features = ["macros", "rt-multi-thread", "signal", "net"] }
tonic = "0.13"
tracing = "0.1"
tracing-subscriber = "0.3"

[dev-dependencies]
prost = "0.13"
