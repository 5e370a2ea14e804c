[package]
name = "rust_os"
version = "0.1.0"
edition = "2021"
publish = false

[dependencies]
bootloader = "0.11"
bootloader_api = "=0.11.17"
clap = { version = "=4.6.7", features = ["derive"] }
conquer-once = { version = "=0.4.0", default-features = false }
crossbeam-queue = "=0.3.14"
futures-util = "=0.3.34"
lazy_static = { version = "=1.5.1", features = ["spin_no_std"] }
no_std_io = "=0.6.0"
noto-sans-mono-bitmap = { version = "=0.3.2", features = ["unicode-specials"] }
pc-keyboard = "=0.9.0"
pic8259 = "=0.11.0"
spin = "=0.9.9"
tarfs = "=0.2.8"
uart_16550 = "=0.9.0"
wasmi = "=2.0.0"
x86_64 = { version = "=0.15.5", default-features = false, features = ["instructions"] }
