[package]
name = "upload"
version = "0.1.3"
edition = "2021"
publish = false

[dependencies]
clap = "3"
ctrlc = "3"
dotenv = "0.15"
