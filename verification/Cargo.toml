[package]
name = "arceos_loader"
version = "0.1.0"
edition = "2021"
publish = false

[dependencies]
hashbrown = "=0.14.5"
hermit-dtb = "=0.1.1"
siphasher = "=1.0.4"
riscv = "=0.10.1"
