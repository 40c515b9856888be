[package]
name = "bsmap"
version = "0.1.0"
edition = "2021"
publish = false

[dependencies]
sha1_smol = "*"
simd-json = "*"
serde = { version = "*", features = ["derive"] }
serde_repr = "*"
thiserror = "*"
zip = "*"
glam = "*"
