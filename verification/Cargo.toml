[package]
name = "deckmix"
version = "0.1.0"
edition = "2021"
publish = false

[dependencies]
cpal = "=0.18.2"
hound = "=3.5.1"
parking_lot = "=0.12.5"
rustfft = "=6.4.1"
symphonia = { version = "=0.5.5", features = ["mp3"] }
thread-priority = "=3.1.1"
vorbis_rs = "=0.5.6"
