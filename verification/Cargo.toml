[package]
name = "kernel"
version = "0.1.0"
edition = "2021"
publish = false

[dependencies]
xmas-elf = "=0.9.1"
smoltcp = { version = "=0.11.0", default-features = false, features = ["alloc", "medium-ethernet", "proto-ipv4", "socket-tcp"] }
virtio-drivers = "0.7"
riscv = "0.10"
buddy_system_allocator = "0.9"
