[package]
name = "quiz_layout"
version = "0.1.0"
edition = "2021"
publish = false

[dependencies]
image = { version = "=0.25.10", default-features = false, features = ["png", "jpeg"] }
imageproc = { version = "=0.25.1", default-features = false }
rand = "=0.9.5"
rand_distr = "=0.5.1"
clap = { version = "=4.6.7", features = ["derive", "env"] }
log = { version = "=0.4.34", features = ["std"] }
chrono = "=0.4.45"
dotenvy = "=0.15.7"
reqwest = { version = "=0.12.28", features = ["blocking"] }
serde_json = "=1.0.154"
base64 = "=0.22.1"
more-asserts = "=0.3.1"
