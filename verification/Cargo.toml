[package]
name = "blockvm"
version = "0.1.0"
edition = "2021"
publish = false

[dependencies]
netsblox-ast = "*"
rustc_apfloat = "*"
slotmap = "*"
