[package]
name = "rosav"
version = "0.1.0"
edition = "2021"
publish = false

[dependencies]
chrono = "0.4"
serde = { version = "1", features = ["derive"] }
serde_json = "1"
toml = "0.8"
home = "0.5"
csv = "1"
notify = "6"
serialport = { version = "4", default-features = false }
find_peaks = "0.1"
nalgebra = "0.32"
varpro = "0.7"
itertools = "0.12"
thiserror = "1"
log = "0.4"
fern = "0.6"
