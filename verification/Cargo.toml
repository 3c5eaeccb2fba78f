[package]
name = "colorify"
version = "0.1.0"
edition = "2021"
publish = false

[dependencies]
serde = { version = "1", features = ["derive"] }
serde_json = "1"
image = { version = "0.25", default-features = false, features = ["png", "jpeg", "gif", "webp"] }
fast_image_resize = { version = "5", features = ["image"] }
uuid = { version = "1", features = ["v4"] }
zip = { version = "2", default-features = false, features = ["deflate"] }
rayon = "1"
base64 = "0.22"
gltf = "1"
tokio = { version = "1", features = ["net", "rt", "rt-multi-thread", "sync", "time", "macros"] }
tokio-tungstenite = "*"
futures-util = "0.3"
bedrock-world = "*"
