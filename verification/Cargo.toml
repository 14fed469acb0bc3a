[package]
name = "laser_pads"
version = "0.1.0"
edition = "2021"
publish = false

[dependencies]
itertools = "*"
js-sys = "*"
leptos = { version = "0.4", features = ["csr"] }
url = "2"
