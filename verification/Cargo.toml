[package]
name = "footprint"
version = "0.2.3"
edition = "2021"
publish = false

[dependencies]
anyhow = "=1.0.104"
chrono = "=0.4.45"
clap = "=2.34.0"
geo = "=0.33.1"
geo-clipper = "=0.9.0"
geojson = "=1.0.0"
log = "=0.4.35"
rmp-serde = "=1.3.1"
serde = { version = "=1.0.229", features = ["derive"] }
serde_json = "=1.0.154"
simple_logger = "=5.2.0"
stac = { version = "=0.17.7", default-features = false }
