[package]
name = "delta_render"
version = "0.1.0"
edition = "2021"
publish = false

[dependencies]
itertools = "=0.14.0"
timely = "0.31"
differential-dataflow = "0.25"
differential-dogs3 = "0.25"
scopeguard = "=1.2.0"
serde = { version = "=1.0.229", features = ["derive"] }
proptest = "=1.12.0"
