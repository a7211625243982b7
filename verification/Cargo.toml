[package]
name = "etcd_txn_parser"
version = "0.1.0"
edition = "2021"
publish = false

[dependencies]
elyze = "=1.5.0"
