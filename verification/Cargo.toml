[package]
name = "ringbuf"
version = "0.1.0"
edition = "2021"
publish = false

[dependencies]
criterion = { version = "0.5", default-features = false }

[dev-dependencies]
quickcheck = { version = "1", default-features = false }
