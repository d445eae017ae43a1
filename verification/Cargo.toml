[package]
name = "footprint"
version = "0.1.0"
edition = "2021"
publish = false

[dependencies]
fgbfile = "*"
fitparser = "*"
flate2 = "*"
geo = "*"
geos = { version = "*", features = ["geo"] }
gpx = "*"
indicatif = { version = "*", features = ["rayon"] }
proj = "*"
rayon = "*"
serde = { version = "*", features = ["derive"] }
serde_json = "*"
walkdir = "*"
