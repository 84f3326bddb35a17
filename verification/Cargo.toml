[package]
name = "repercussion"
version = "0.1.0"
edition = "2021"
publish = false

[dependencies]
semver = "=1.0.28"
serde = { version = "1", features = ["derive"] }
serde_derive = "1"
hecs = { version = "=0.10.5", features = ["row-serialize"] }
nalgebra = { version = "0.33", features = ["serde-serialize"] }
rand = "=0.8.5"
memoffset = "=0.9.1"
allegro = "=0.0.51"
allegro_audio = "=0.0.51"
allegro_font = "=0.0.51"
allegro_image = "=0.0.51"
allegro_primitives = "=0.0.51"
allegro-sys = "=0.0.51"
allegro_ttf = "=0.0.51"
