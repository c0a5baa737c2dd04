[package]
name = "atcli_judge"
version = "0.1.0"
edition = "2021"
publish = false

[dependencies]
anyhow = "1"
owo-colors = "4"
similar = "2"
wait-timeout = "0.2"
