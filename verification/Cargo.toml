[package]
name = "request_responses"
version = "0.1.0"
edition = "2021"
publish = false

[dependencies]
unsigned-varint = { version = "0.8", features = ["futures"] }
libp2p = { version = "0.28", default-features = false, features = ["request-response"] }
futures = "0.3"
async-trait = "0.1"
log = "0.4"
derive_more = "0.99"
