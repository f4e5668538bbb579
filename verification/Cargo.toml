[package]
name = "periodic_table_generator"
version = "0.1.0"
edition = "2021"
publish = false

[dependencies]
clap = { version = "4", features = ["derive"] }
regex = "1"
once_cell = "1"
shell-escape = "0.1"
