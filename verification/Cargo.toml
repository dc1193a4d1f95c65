[package]
name = "chip8_jit"
version = "0.1.0"
edition = "2021"
publish = false

[dependencies]
sdl2 = "=0.37.0"
dynasmrt = "*"
