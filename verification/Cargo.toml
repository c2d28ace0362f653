[package]
name = "shapecompletion"
version = "0.1.0"
edition = "2021"
publish = false

[dependencies]
flo_curves = "*"
hungarian = "*"
visioncortex = "*"
