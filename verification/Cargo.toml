[package]
name = "mgrs"
version = "0.4.0"
edition = "2021"
publish = false

[dependencies]
anyhow = "1"
clap = { version = "4", features = ["derive"] }
csv = "1"
geoconvert = "*"
regex = "1"
serde_json = "1"
zip = { version = "2", default-features = false, features = ["deflate"] }
indicatif = "0.17"
shapefile = "*"
rusqlite = { version = "*", features = ["bundled"] }
flatgeobuf = { version = "*", default-features = false }
geozero = { version = "*", default-features = false, features = ["with-geojson"] }
