[package]
name = "onas"
version = "0.1.0"
edition = "2021"
publish = false

[dependencies]
anyhow = "=1.0.104"
clap = { version = "=4.6.7", features = ["derive"] }
serde = { version = "=1.0.229", features = ["derive"] }
serde_json = "=1.0.154"
env_logger = "=0.11.11"
log = "=0.4.35"
image = "=0.25.10"
zune-jpeg = "=0.5.15"
zune-core = "=0.5.3"
zune-png = "=0.5.2"
bytemuck = "=1.25.2"
ravif = { version = "=0.13.0", default-features = false, features = ["threading"] }
jxl-oxide = "=0.12.6"
jpegxl-rs = "=0.16.0"
symphonia = { version = "=0.6.1", features = ["all"] }
flac-bound = "=0.5.0"
audiopus = "=0.2.0"
fdk-aac = "=0.8.0"
lofty = "=0.25.5"
nom-exif = "=3.8.0"
matroska = "=0.30.1"
webm-iterable = "=0.7.1"
ebml-iterable = "=0.7.1"
dav1d = "=0.11.1"
vpx-sys = "=0.1.1"
x264 = "=0.5.0"
rav1e = { version = "=0.8.1", default-features = false, features = ["threading"] }
libde265 = "=0.2.0"
rust_h264 = "=0.6.0"
vpx = "=0.3.1"
