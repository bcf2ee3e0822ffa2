[package]
name = "visualizer"
version = "0.1.0"
edition = "2021"
publish = false

[dependencies]
audioviz = "0.6.0"
mpris = "=2.1.0"
