[package]
name = "memflow"
version = "0.1.0"
edition = "2021"
publish = false

[dependencies]
byteorder = "1"
goblin = "*"
libloading = "*"
log = "0.4"
simple_logger = "*"
serde = { version = "1", features = ["derive"] }
darling = "0.14"
syn = { version = "1", features = ["full"] }
quote = "1"
proc-macro2 = "1"
