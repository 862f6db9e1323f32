[package]
name = "colony"
version = "0.1.0"
edition = "2021"
publish = false

[dependencies]
rand = "=0.8.8"
rustc-serialize = "=0.3.25"
petgraph = "=0.6.5"
sdl2 = "0.37"
schedule_recv = "0.1"
