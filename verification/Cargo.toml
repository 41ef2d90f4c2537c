[package]
name = "boot_console"
version = "0.1.0"
edition = "2021"
publish = false

[dependencies]
noto-sans-mono-bitmap = "=0.1.6"
bootloader_api = "=0.11.17"
uart_16550 = "=0.8.1"
x86_64 = { version = "=0.15.5", default-features = false, features = ["instructions"] }
