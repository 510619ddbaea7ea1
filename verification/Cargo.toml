[package]
name = "pevm"
version = "0.1.0"
edition = "2021"
publish = false

[dependencies]
alloy-primitives = "*"
alloy-trie = "*"
revm = { version = "*", default-features = false, features = ["std"] }
dashmap = "*"
libmdbx = "*"
