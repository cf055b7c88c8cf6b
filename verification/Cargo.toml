[package]
name = "kernel_core"
version = "0.1.0"
edition = "2021"
publish = false

[dependencies]
bit_field = "=0.10.3"
x86_64 = { version = "=0.15.5", default-features = false, features = ["instructions"] }
spin = "=0.9.9"
limine = "=0.5.0"
talc = { version = "=4.4.3", default-features = false, features = ["lock_api"] }
x2apic = "=0.5.1"
conquer-once = { version = "=0.4.0", default-features = false }
object = { version = "=0.40.0", default-features = false, features = ["read_core", "elf"] }
os-terminal = "=0.7.4"
