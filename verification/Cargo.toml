[package]
name = "simple_audio_decoder_rs"
version = "0.1.0"
edition = "2021"
publish = false

[dependencies]
libc = "0.2"
rodio = "0.19"
rubato = "0.15"
