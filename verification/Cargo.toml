[package]
name = "api_blueprint_to_rust"
version = "0.1.0"
edition = "2021"
publish = false

[dependencies]
codegen = "0.1"
pulldown-cmark = { version = "0.5", default-features = false }
log = "0.4"
env_logger = { version = "0.6", default-features = false }
