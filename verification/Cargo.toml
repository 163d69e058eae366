[package]
name = "prop_amm_strategy"
version = "0.1.0"
edition = "2021"
publish = false

[dependencies]
pinocchio = "0.9"
wincode = "0.4"
