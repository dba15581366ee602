[package]
name = "minilang"
version = "0.1.0"
edition = "2021"
publish = false

[dependencies]
ariadne = "=0.6.0"
chumsky = "=0.13.0"
indexmap = "=2.14.2"
inkwell = { version = "=0.11.0", features = ["llvm14-0-force-dynamic"] }
