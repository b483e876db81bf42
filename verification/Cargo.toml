[package]
name = "chart_geometry"
version = "0.1.0"
edition = "2021"
publish = false

[dependencies]
toml = "0.8"
geo = "0.28"
geo-types = "0.7"
gdal = "0.16"
sfml = "0.21"
log = "0.4"
env_logger = "0.11"
