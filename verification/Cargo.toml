[package]
name = "prism_compiler"
version = "0.1.0"
edition = "2021"
publish = false

[dependencies]
ariadne = "=0.5.1"
clap = { version = "=4.6.7", features = ["derive"] }
thiserror = "=2.0.21"
rpds = "1"
