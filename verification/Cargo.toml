[package]
name = "hypervisor-fw"
version = "0.1.0"
edition = "2021"
publish = false

[dependencies]
goblin = { version = "*", default-features = false, features = ["elf64"] }
plain = "*"
sha2 = { version = "*", default-features = false }
x86_64 = { version = "*", default-features = false, features = ["instructions"] }
