[package]
name = "ft_vox"
version = "0.1.0"
edition = "2021"
publish = false

[dependencies]
num_cpus = "=1.17.0"
serde = { version = "=1.0.229", features = ["derive"] }
bincode = "=1.3.3"
tokio = { version = "=1.54.1", features = ["rt-multi-thread", "net", "io-util", "sync", "macros", "time"] }
glam = "0.29"
