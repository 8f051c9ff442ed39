[package]
name = "moe_680m"
version = "0.2.0"
edition = "2021"
publish = false

[dependencies]
ash = "0.38"
memmap2 = "0.9"
bytemuck = { version = "1.15", features = ["derive"] }
libc = "0.2"
serde = { version = "1", features = ["derive"] }
serde_json = "1"
hyper = { version = "1", features = ["server", "http1"] }
hyper-util = { version = "0.1", features = ["tokio"] }
http-body-util = "0.1"
tokio = { version = "1", features = ["rt", "rt-multi-thread", "macros", "sync", "net"] }
thiserror = "2"
