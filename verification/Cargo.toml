[package]
name = "referral_discount_function"
version = "0.1.0"
edition = "2021"
publish = false

[dependencies]
shopify_function = "*"
