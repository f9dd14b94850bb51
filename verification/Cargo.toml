[package]
name = "hextergen"
version = "0.1.0"
edition = "2021"
publish = false

[dependencies]
hexx = { version = "0.17", default-features = false }
rand = "0.8"
rand_pcg = "0.3"
hashbrown = "0.14"
ndarray = "0.15"
argh = "0.1"
log = "0.4"
rayon = "1"
noise = "0.8"
image = { version = "0.24", default-features = false, features = ["png"] }
imageproc = { version = "0.23", default-features = false }
