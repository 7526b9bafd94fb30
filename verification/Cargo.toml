[package]
name = "terrain"
version = "0.1.0"
edition = "2021"
publish = false

[dependencies]
byteorder = "=0.5.3"
chan = "=0.1.23"
clap = "=2.34.0"
custom_derive = "=0.1.7"
env_logger = "=0.3.5"
error-chain = "=0.5.0"
glium = "=0.36.0"
image = { version = "=0.25.10", default-features = false, features = ["jpeg", "png"] }
log = "=0.3.9"
lru_time_cache = "=0.11.11"
nalgebra = "=0.29.0"
newtype_derive = "=0.1.6"
noise = "0.2"
nphysics3d = "=0.24.0"
num = "=0.1.43"
rand = "=0.3.23"
threadpool = "=1.8.1"
wavefront_obj = "=5.1.0"
