[package]
name = "sample_explorer"
version = "0.1.0"
edition = "2021"
publish = false

[dependencies]
itertools = "=0.15.0"
rustfft = "=6.4.1"
apodize = "=1.0.0"
pitch-detection = "=0.3.0"
rodio = "0.21"
iced = { version = "=0.14.0", default-features = false, features = ["canvas", "tokio", "svg", "tiny-skia"] }
log = "=0.4.34"
fern = "=0.7.1"
humantime = "=2.4.0"
thiserror = "=2.0.21"
tokio = { version = "=1.54.1", features = ["fs", "rt-multi-thread"] }
notify = "=8.2.0"
rfd = "=0.17.2"
