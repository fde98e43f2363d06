[package]
name = "katakomb"
version = "0.1.0"
edition = "2021"
publish = false

[dependencies]
chrono = "=0.4.45"
failure = "=0.1.8"
fern = "=0.6.2"
flo_binding = "=2.2.0"
float-ord = "=0.3.2"
ggez = "=0.6.1"
internship = "=0.6.0"
lazy_static = "=1.5.1"
log = "=0.4.34"
mint = "=0.5.9"
nalgebra = "=0.29.0"
ndarray = { version = "=0.15.6", features = ["serde"] }
noise = "=0.7.0"
rand = "=0.7.3"
rayon = "=1.12.0"
rodio = "=0.13.1"
serde = { version = "=1.0.229", features = ["derive"] }
serde_json = "=1.0.154"
specs = "=0.16.1"
specs-derive = "=0.4.1"
structopt = "=0.3.26"
