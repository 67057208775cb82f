[package]
name = "ray_tracer"
version = "0.1.0"
edition = "2021"
publish = false

[dependencies]
clap = { version = "*", features = ["derive"] }
collar = "*"
derive_more = { version = "*", features = ["full"] }
enum_dispatch = "*"
glam = "*"
image = "*"
rand = "0.9"
rand_distr = "0.5"
rayon = "*"
thiserror = "*"
