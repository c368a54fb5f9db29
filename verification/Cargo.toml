[package]
name = "toecs"
version = "0.1.0"
edition = "2021"
publish = false

[dependencies]
anyhow = "1.0"
atomic_refcell = "0.1"
downcast-rs = "1.2"
log = "0.4"
rustc-hash = "1.1"
thiserror = "1.0"
