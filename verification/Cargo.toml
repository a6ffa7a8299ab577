[package]
name = "bg_remover"
version = "0.1.0"
edition = "2021"
publish = false

[dependencies]
anyhow = "=1.0.104"
arboard = "=3.7.0"
base64 = "=0.22.1"
image = { version = "=0.25.10", default-features = false, features = ["png", "jpeg", "webp", "bmp", "gif", "tiff", "ico", "tga", "pnm", "hdr", "ff", "qoi"] }
once_cell = "=1.21.4"
ort = { version = "=2.0.0-rc.11", default-features = false, features = ["std", "load-dynamic"] }
resvg = "=0.45.1"
serde = { version = "=1.0.229", features = ["derive"] }
thiserror = "=1.0.69"
tokio = { version = "=1.54.1", features = ["rt"] }
