[package]
name = "clock_fb"
version = "0.1.0"
edition = "2021"
publish = false

[dependencies]
fontdue = "*"
memmap2 = "*"
