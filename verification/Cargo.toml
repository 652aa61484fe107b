[package]
name = "os_core"
version = "0.1.0"
edition = "2021"
publish = false

[dependencies]
bitflags = "=1.3.2"
lazy_static = "=1.5.1"
log = "=0.4.34"
riscv = "=0.16.1"
