[package]
name = "rshtml"
version = "0.1.0"
edition = "2021"
publish = false

[dependencies]
codegen = "=0.1.3"
minify = "=1.3.0"
