[package]
name = "stwo_prover"
version = "0.1.0"
edition = "2021"
publish = false

[dependencies]
cfg-if = "=1.0.5"
tracing-profile = "=0.6.0"
tracing-subscriber = "=0.3.23"
