[package]
name = "lua_arch"
version = "0.1.0"
edition = "2021"
publish = false

[dependencies]
lua53-sys = "*"
