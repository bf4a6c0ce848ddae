[package]
name = "dlog_plonk"
version = "0.1.0"
edition = "2021"
publish = false

[dependencies]
ark-ff = "=0.5.0"
ark-ec = "=0.5.0"
ark-poly = "=0.5.0"
ark-serialize = "=0.5.0"
ark-pallas = "=0.5.0"
ark-vesta = "=0.5.0"
blake2 = "=0.10.6"
rand = "=0.8.8"
