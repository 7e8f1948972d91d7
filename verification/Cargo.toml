[package]
name = "asset_convert"
version = "0.1.0"
edition = "2021"
publish = false

[dependencies]
hound = "=3.5.1"
nutexb = { version = "=0.7.0", features = ["ddsfile"] }
prc-rs = { version = "=1.6.1", features = ["xml-feat"] }
sarc = "=1.2.0"
serde_yaml = "=0.9.34"
zip = "=0.5.13"

[dev-dependencies]
hash40 = "=1.3.1"
nus3audio = "=1.2.0"
