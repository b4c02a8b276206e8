[package]
name = "raytracer"
version = "0.1.0"
edition = "2021"
publish = false

[dependencies]
cgmath = "0.18"
png = "0.15"
rand = "0.8"
rayon = "1"
wavefront_obj = "*"
xmltree = "0.10"
