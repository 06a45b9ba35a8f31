[package]
name = "velo"
version = "0.1.0"
edition = "2021"
publish = false

[dependencies]
chrono = "0.4"
dirs = "6"
notify = "8"
notify-debouncer-full = "0.5"
open = "5"
rayon = "1"
slint = { version = "1", default-features = false, features = ["std", "compat-1-2"] }

[dev-dependencies]
tempfile = "3"
