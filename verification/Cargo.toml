[package]
name = "unearth"
version = "0.8.6"
edition = "2021"
publish = false

[dependencies]
regex = "1"
chrono = "0.4"
crossbeam-channel = "0.5"
jemallocator = "0.5"
jwalk = "0.8"
ntfs = "0.4"
rayon = "1"
