[package]
name = "vm_core"
version = "0.1.0"
edition = "2021"
publish = false

[dependencies]
elrond-codec = "=0.12.0"
num-bigint = "=0.4.8"
num-traits = "=0.2.19"
