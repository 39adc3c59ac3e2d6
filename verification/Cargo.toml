[package]
name = "valkey_cuckoo"
version = "0.1.0"
edition = "2021"
publish = false

[dependencies]
cuckoofilter = "*"
rand = "*"
rand_chacha = "*"
siphasher = "*"
valkey-module = "*"
