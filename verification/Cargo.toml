[package]
name = "polyfill_search"
version = "0.1.0"
edition = "2021"
publish = false

[dependencies]
futures = "0.3"
google-places-api = "*"
