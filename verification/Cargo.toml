[package]
name = "jsonstreams_gen"
version = "0.1.0"
edition = "2021"
publish = false

[dependencies]
clap = { version = "4", features = ["derive"] }
generic-builders = "*"
imbl = "*"
imbl-util = "*"
immutable-json = "*"
iter-util = "*"
log = "0.4"
serde_json = "1"
serde_yaml = "*"
stderrlog = "*"
thiserror = "*"
