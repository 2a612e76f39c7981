[package]
name = "ray_tracer"
version = "0.1.0"
edition = "2021"
publish = false

[dependencies]
arrayvec = "0.7"
btreemultimap = "0.1"
decorum = "0.3"
image = { version = "0.24", default-features = false }
nalgebra = "0.32"
partial_application = "*"
tap = "1"

[dev-dependencies]
approx = "0.5"
