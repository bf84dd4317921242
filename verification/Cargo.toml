[package]
name = "gisor"
version = "0.1.0"
edition = "2021"
publish = false

[dependencies]
cpp_demangle = "*"
csv = "*"
logos = "*"
once_cell = "*"
rand = "*"
serde = { version = "*", features = ["derive"] }
