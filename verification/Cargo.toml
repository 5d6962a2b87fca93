[package]
name = "icp_core"
version = "0.1.0"
edition = "2021"
publish = false

[dependencies]
glam = "=0.33.12"
kiddo = "=5.3.3"
kornia-3d = "=0.2.0"
kornia-algebra = "=0.2.0"
log = "=0.4.34"
