[package]
name = "hybridpir"
version = "0.1.0"
edition = "2021"
publish = false

[dependencies]
android_log = "0.1"
bincode = "1"
bitvec = "0.20"
jni = "0.19"
log = "0.4"
rayon = "1"
serde = { version = "1", features = ["derive"] }
serde_bytes = "0.11"

[dev-dependencies]
rand = "0.8"
