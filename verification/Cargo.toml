[package]
name = "clamav_client"
version = "0.1.0"
edition = "2021"
publish = false

[dependencies]
bytes = "1"
async-fs = "2"
async-net = "2"
futures-lite = "2"
async-trait = "0.1"
async-std = "1"
