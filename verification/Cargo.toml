[package]
name = "crabuv"
version = "0.1.0"
edition = "2021"
publish = false

[dependencies]
slotmap = "1"
signal-hook = "0.3"
signal-hook-mio = { version = "0.2", features = ["support-v1_0"] }
mio = { version = "1", features = ["os-poll", "os-ext", "net"] }
rayon = "1"
notify = "8"
anyhow = "1"
crossterm = "0.29"
ctrlc = "3"
threadpool = "1"
