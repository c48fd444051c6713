[package]
name = "im_etna"
version = "0.1.0"
edition = "2021"
publish = false

[dependencies]
im = "15.1.0"
proptest = "1"
quickcheck = "1"
crabcheck = "*"
hegel = "*"
