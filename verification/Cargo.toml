[package]
name = "particle_sim"
version = "0.1.0"
edition = "2021"
publish = false

[dependencies]
meval = "=0.2.0"
macroquad = { version = "=0.4.16", features = ["glam-serde"] }
egui-macroquad = "=0.17.3"
serde = { version = "=1.0.229", features = ["derive"] }
serde_json = "=1.0.154"
rayon = "=1.12.0"
chrono = "=0.4.45"
directories = "=6.0.0"
open = "=5.4.5"
