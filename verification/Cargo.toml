[package]
name = "luola2"
version = "0.1.0"
edition = "2021"
publish = false

[dependencies]
anyhow = "1"
argh = "*"
either = "1"
env_logger = "*"
fastrand = "2"
log = "0.4"
mlua = { version = "*", features = ["lua54", "vendored", "serialize"] }
serde = { version = "1", features = ["derive"] }
smallvec = "1"
toml = "*"
sdl3-sys = "*"
sdl3-image-sys = "*"
sdl3-ttf-sys = "*"
sdl3-mixer-sys = "*"
sdl3-main = "*"
