[package]
name = "particle_life"
version = "0.1.0"
edition = "2021"
publish = false

[dependencies]
wasm-bindgen = "0.2"
js-sys = "0.3"
nalgebra = "*"
vecmath = "1"
wee_alloc = "0.4"
