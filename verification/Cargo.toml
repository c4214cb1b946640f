[package]
name = "embedfs"
version = "0.1.0"
edition = "2021"
publish = false

[dependencies]
libc = "=0.2.190"
uuid = { version = "=1.27.0", features = ["v4"] }
python27-sys = "=0.7.0"
