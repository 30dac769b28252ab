[package]
name = "sudoku"
version = "0.1.0"
edition = "2021"
publish = false

[dependencies]
ndarray = "*"
bit-vec = "0.6"
rand = "0.8"
regex-lite = "0.1"
threadpool = "1"
num_cpus = "1"
directories = "*"
