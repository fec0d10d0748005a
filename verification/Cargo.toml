[package]
name = "sophie"
version = "0.1.0"
edition = "2021"
publish = false

[dependencies]
indextree = "*"
radix_trie = "*"
num = "*"
num-derive = "*"
