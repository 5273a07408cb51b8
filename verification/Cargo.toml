[package]
name = "scamp"
version = "0.1.0"
edition = "2021"
publish = false

[dependencies]
rand = "=0.8.8"
image = { version = "=0.25.10", default-features = false, features = ["png"] }
icy_sixel = "=0.7.0"
asefile = "=0.3.8"
flate2 = "=1.1.10"
vte = "=0.13.1"
crossterm = "=0.28.1"
portable-pty = "=0.8.1"
anyhow = "=1.0.104"
dirs = "=5.0.1"
which = "=6.0.3"
windows-sys = { version = "=0.59.0", features = ["Win32_System_Console"] }
enable-ansi-support = "=0.2.1"
