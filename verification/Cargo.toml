[package]
name = "spreadsheet"
version = "0.1.0"
edition = "2021"
publish = false

[dependencies]
atoi_simd = "=0.18.1"
chrono = "=0.4.45"
fast-float2 = "=0.2.4"
itoa = "=1.0.18"
ouroboros = "=0.18.5"
quick-xml = "=0.41.0"
ryu = "=1.0.23"
tempfile = "=3.27.0"
thiserror = "=2.0.21"
zip = { version = "=9.2.2", default-features = false, features = ["deflate"] }
