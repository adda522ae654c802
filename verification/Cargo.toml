[package]
name = "gps_trajectory_validation"
version = "0.1.0"
edition = "2021"
publish = false

[dependencies]
anyhow = "1"
chrono = { version = "0.4", features = ["serde"] }
clap = { version = "4", features = ["derive"] }
geo = { version = "0.28", features = ["use-serde"] }
geojson = "0.24"
once_cell = "1"
open = "5"
serde = { version = "1", features = ["derive"] }
serde_json = "1"
serde_with = "3"
thiserror = "1"
urlencoding = "2"
