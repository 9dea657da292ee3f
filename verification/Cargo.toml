[package]
name = "disk_inventory"
version = "0.1.0"
edition = "2021"
publish = false

[dependencies]
rayon = "1"
jwalk = "0.8"
sysinfo = "*"
serde = { version = "1", features = ["derive"] }
serde_json = "1"
chrono = "0.4"
num-format = "0.4"
