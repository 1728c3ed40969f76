[package]
name = "g_map_se"
version = "0.1.0"
edition = "2021"
publish = false

[dependencies]
anyhow = "1"
clap = { version = "4", features = ["derive"] }
glob = "0.3"
hound = "3"
kaldi-native-fbank = "*"
num-complex = "0.4"
ort = { version = "2.0.0-rc.10", default-features = false, features = ["std"] }
rustfft = "6"
serde = { version = "1", features = ["derive"] }
serde_json = "1"
