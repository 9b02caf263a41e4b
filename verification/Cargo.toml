[package]
name = "pamsoft_grid"
version = "2.0.0"
edition = "2021"
publish = false

[dependencies]
ndarray = "0.16"
rustfft = "6"
num-complex = "0.4"
image = { version = "0.25", default-features = false, features = ["tiff"] }
imageproc = { version = "0.25", default-features = false }
serde = { version = "1", features = ["derive"] }
serde_json = "1"
csv = "1"
rayon = "1"
clap = { version = "4", features = ["derive"] }
thiserror = "1"
tracing = "0.1"
tracing-subscriber = { version = "0.3", features = ["env-filter"] }
anyhow = "1"

[dev-dependencies]
rand = "0.8"
rand_chacha = "0.3"
