[package]
name = "scout"
version = "0.1.0"
edition = "2021"
publish = false

[dependencies]
safetensors = "=0.8.0"
serde_json = "=1.0.154"
rand = "=0.9.5"
rand_distr = "=0.5.1"
