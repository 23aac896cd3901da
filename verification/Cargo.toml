[package]
name = "npu_runtime"
version = "0.1.0"
edition = "2021"
publish = false

[dependencies]
defmt = "*"
embassy-stm32 = { version = "*", default-features = false }
embassy-time = { version = "*", features = ["std"] }
libm = "*"
