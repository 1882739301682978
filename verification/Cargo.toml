[package]
name = "evk"
version = "0.1.0"
edition = "2021"
publish = false

[dependencies]
heapless = "=0.9.3"
smallvec = "=1.16.4"
http = "=1.5.0"
url = "=2.5.8"
serde_json = "1"
