[package]
name = "pathtracer"
version = "0.1.0"
edition = "2021"
publish = false

[dependencies]
args = "*"
array-init = "2"
getopts = "0.2"
image = { version = "*", default-features = false, features = ["png", "jpeg"] }
nalgebra = "*"
num_cpus = "1"
rand = "0.9"
rand_distr = "0.5"
threadpool = "1"
