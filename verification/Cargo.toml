[package]
name = "bee-chess"
version = "0.1.0"
edition = "2021"
publish = false

[dependencies]
fathom-syzygy-sys = "0.1.0"
