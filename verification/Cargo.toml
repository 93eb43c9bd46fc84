[package]
name = "speech_opt"
version = "0.1.0"
edition = "2021"
publish = false

[dependencies]
regex = "1"
humantime = "2"
chrono = "0.4"
anyhow = "1"
tokio = { version = "1", features = ["rt-multi-thread", "macros", "time", "fs"] }
fltk = "1"
fltk-table = "*"
srtlib = "*"
screenshots = "*"
directories = "*"
