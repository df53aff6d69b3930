[package]
name = "bomber_lib"
version = "0.1.0"
edition = "2021"
publish = false

[dependencies]
wasmtime = { version = "=36.0.19", default-features = false, features = ["std", "runtime", "cranelift", "wat"] }
rand = "=0.8.8"
rouille = "3"

[dev-dependencies]
bincode = "=1.3.3"
