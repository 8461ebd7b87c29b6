[package]
name = "deploy_matcher"
version = "0.1.0"
edition = "2021"
publish = false

[dependencies]
alloy-dyn-abi = "*"
alloy-primitives = "*"
foundry-block-explorers = { version = "*", default-features = false }
