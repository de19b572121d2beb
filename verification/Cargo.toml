[package]
name = "kernel_boot"
version = "0.1.0"
edition = "2021"
publish = false

[dependencies]
arrayvec = "0.7"
log = "0.4"
spin = "*"
aarch64-cpu = "*"
arm_pl011 = "*"
bitflags = "2"
