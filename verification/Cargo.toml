[package]
name = "stitchery"
version = "0.1.0"
edition = "2021"
publish = false

[dependencies]
anyhow = "=1.0.104"
clap = { version = "=4.6.7", features = ["derive"] }
float-ord = "=0.3.2"
glam = "=0.34.1"
image = "=0.24.9"
ndarray = "=0.17.2"
palette = "=0.7.7"
petal-decomposition = "=0.9.0"
printpdf = { version = "=0.5.3", features = ["embedded_images"] }
rayon = "=1.12.0"
rusttype = "=0.9.3"
serde = { version = "1", features = ["derive"] }
serde_json = "1"
