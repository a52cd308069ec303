[package]
name = "variant_fields"
version = "0.1.0"
edition = "2021"
publish = false

[dependencies]
noodles = { version = "*", features = ["bcf", "vcf"] }
