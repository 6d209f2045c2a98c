[package]
name = "aw-man"
version = "0.1.0"
edition = "2021"
publish = false

[dependencies]
ahash = "=0.8.12"
cgmath = "=0.18.0"
clap = { version = "=4.6.7", features = ["derive"] }
color-eyre = "=0.6.5"
compress-tools = "=0.16.1"
dirs = "=7.0.0"
flume = "=0.11.1"
futures-util = "=0.3.34"
gl = "0.14"
glium = { version = "=0.36.0", default-features = false }
gtk4 = { version = "=0.11.5", features = ["v4_12"] }
image = { version = "=0.25.10", default-features = false, features = ["bmp", "dds", "exr", "ff", "gif", "hdr", "ico", "jpeg", "png", "pnm", "qoi", "tga", "tiff", "webp"] }
jpegxl-rs = { version = "=0.16.0+libjxl-0.12.0", features = ["image", "vendored"] }
libc = "=0.2.191"
libloading = "=0.9.0"
nu-ansi-term = "=0.50.3"
num_cpus = "=1.17.0"
ocl = "=0.19.7"
once_cell = "=1.21.4"
rayon = "=1.12.0"
regex = "=1.13.1"
serde = { version = "=1.0.229", features = ["derive"] }
serde_json = "=1.0.154"
signal-hook = "=0.3.18"
tempfile = "=3.27.0"
tikv-jemallocator = "=0.7.0"
tokio = { version = "=1.54.1", features = ["full"] }
tracing = "=0.1.44"
tracing-log = "=0.2.0"
tracing-subscriber = { version = "=0.3.23", features = ["env-filter"] }
