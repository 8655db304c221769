[package]
name = "half_edge_graph"
version = "0.1.0"
edition = "2021"
publish = false

[dependencies]
itertools = "0.10"
slotmap = "1.0"
