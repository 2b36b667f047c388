[package]
name = "coffee_shop_sim"
version = "0.1.0"
edition = "2021"
publish = false

[dependencies]
crossbeam = "*"
rand = "*"
