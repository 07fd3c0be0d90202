[package]
name = "routable_graph"
version = "0.1.0"
edition = "2021"
publish = false

[dependencies]
im = "15"
uuid = { version = "1", features = ["v4"] }
leptos = "0.6"
