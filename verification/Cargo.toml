[package]
name = "soil_moisture"
version = "0.1.0"
edition = "2021"
publish = false

[dependencies]
actix-web = { version = "*", default-features = false }
chrono = { version = "*", default-features = false, features = ["std", "serde"] }
env_logger = "*"
hdf5 = "*"
log = "*"
rayon = "*"
reqwest = { version = "*", default-features = false }
rusqlite = { version = "*", features = ["bundled"] }
serde = { version = "*", features = ["derive"] }
tempfile = "*"
tokio = { version = "*", default-features = false, features = ["rt", "time"] }
