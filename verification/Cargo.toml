[package]
name = "bm3d"
version = "0.1.0"
edition = "2021"
publish = false

[dependencies]
clap = { version = "*", features = ["derive"] }
image = "*"
imageproc = "*"
num_cpus = "*"
ocl = "*"
rayon = "*"
zune-image = "*"
