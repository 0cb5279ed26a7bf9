[package]
name = "im_hashset"
version = "0.1.0"
edition = "2021"
publish = false

[dependencies]
quickcheck = { version = "1", default-features = false }
