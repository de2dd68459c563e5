[package]
name = "mesh_indexer"
version = "0.1.0"
edition = "2021"
publish = false

[dependencies]
wavefront_obj = "*"
