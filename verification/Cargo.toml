[package]
name = "secbench_dsp"
version = "0.1.0"
edition = "2021"
publish = false

[dependencies]
rayon = "1"
realfft = "3"
rand_core = "0.6"
serde = { version = "1", features = ["derive"] }

[dev-dependencies]
rand = "=0.8.5"
