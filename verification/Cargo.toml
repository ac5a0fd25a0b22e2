[package]
name = "mesh_props"
version = "0.1.0"
edition = "2021"
publish = false

[dependencies]
nom_stl = "*"
