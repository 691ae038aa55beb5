[package]
name = "collocation"
version = "0.1.0"
edition = "2021"
publish = false

[dependencies]
rayon = "=1.12.0"
ctrlc = "=3.5.2"
plotly = "=0.14.1"
lapack = "=0.20.0"
lapack-src = { version = "=0.13.0", features = ["openblas"] }
openblas-src = "=0.10.16"

[dev-dependencies]
nalgebra = "=0.35.0"
