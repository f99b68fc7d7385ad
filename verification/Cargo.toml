[package]
name = "voxel_server"
version = "0.1.0"
edition = "2021"
publish = false

[dependencies]
actix = "=0.13.5"
actix-web = { version = "=4.18.1", default-features = false, features = ["ws"] }
actix-web-actors = "=4.3.1"
rand = "=0.8.8"
serde_json = "=1.0.154"
specs = { version = "=0.20.0", default-features = false }
