[package]
name = "audio_stream"
version = "0.1.0"
edition = "2021"
publish = false

[dependencies]
async-fn-stream = "0.2"
cpal = "0.14"
crossbeam-channel = "0.5"
futures = "0.3"
futures-core = "0.3"
next-gen = "0.1"
nnnoiseless = "0.5"
rustfft = "6"
snafu = "0.7"
tokio = { version = "1", features = ["sync", "rt", "rt-multi-thread", "macros"] }
tracing = "0.1"
tracing-subscriber = "0.3"
wide = "0.7"
