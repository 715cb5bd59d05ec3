[package]
name = "ferrox"
version = "0.1.0"
edition = "2021"
publish = false

[dependencies]
oxideav-vp8 = "=0.2.7"
oxideav-core = "=0.1.42"
oxideav-mkv = "=0.0.11"
image = { version = "=0.25.10", default-features = false, features = ["png", "jpeg"] }
gif = "=0.13.3"
color_quant = "=1.1.0"
symphonia = "=0.5.5"
hound = "=3.5.1"
claxon = "=0.4.3"
lewton = "=0.10.2"
mp3lame-encoder = "=0.2.5"
rav1e = { version = "=0.7.1", default-features = false }
openh264 = "=0.9.9"
mp4 = "=0.14.0"
matroska-demuxer = "=0.8.1"
serde = { version = "=1.0.229", features = ["derive"] }
thiserror = "=2.0.21"
anyhow = "=1.0.104"
clap = { version = "=4.6.7", features = ["derive", "env"] }
tracing = "=0.1.44"
tracing-subscriber = { version = "=0.3.23", features = ["env-filter"] }
