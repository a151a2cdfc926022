[package]
name = "boson_spectra_telemetry"
version = "0.1.0"
edition = "2021"
publish = false

[dependencies]
serde_json = "1"
chrono = "0.4"
boson-telemetry = "=0.1.4"
spectra-core = "=0.14.1"
