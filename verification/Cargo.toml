[package]
name = "tftpserver"
version = "0.1.1"
edition = "2021"
publish = false

[dependencies]
clap = "4"
