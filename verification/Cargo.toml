[package]
name = "sv39_kernel"
version = "0.1.0"
edition = "2021"
publish = false

[dependencies]
hashbrown = "=0.9.1"
riscv = "=0.10.1"
spin = "=0.9.9"
lazy_static = "=1.5.1"
xmas-elf = "=0.9.1"
