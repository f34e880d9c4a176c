[package]
name = "hexium_os"
version = "0.1.0"
edition = "2021"
publish = false

[dependencies]
acpi = { version = "=5.2.0", default-features = false }
heapless = "=0.8.0"
limine = "=0.5.0"
nodit = "=0.10.1"
raw-cpuid = "=11.6.0"
spin = "=0.12.3"
talc = { version = "=4.4.3", default-features = false, features = ["lock_api"] }
x86_64 = { version = "=0.15.5", default-features = false, features = ["instructions"] }
