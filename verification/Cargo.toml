[package]
name = "buckgraph"
version = "0.1.0"
edition = "2021"
publish = false

[dependencies]
sysinfo = "0.30"
indexmap = "2"
clap = { version = "4", features = ["derive"] }
walkdir = "2"
threadpool = "1.8"
num_cpus = "1"
humantime = "2"
anyhow = "1"
