[package]
name = "prop_amm_starter"
version = "0.1.0"
edition = "2021"
publish = false

[dependencies]
pinocchio = "=0.9.3"
wincode = "=0.6.3"
