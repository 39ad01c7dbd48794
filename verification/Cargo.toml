[package]
name = "packet_framing"
version = "0.1.0"
edition = "2021"
publish = false

[dependencies]
aes = "0.7"
cfb8 = "0.7"
flate2 = "1"
mio-extras = "2"
rand = "0.7"
shrev = "1"
specs = "0.15"
uuid = { version = "1", features = ["v4"] }
