[package]
name = "gaiku"
version = "0.1.0"
edition = "2021"
publish = false

[dependencies]
gox = "*"
png = "0.16"
anyhow = "1"
glam = "0.13"
mint = "0.5"
thiserror = "1"
