[package]
name = "xlsx_engine"
version = "0.1.0"
edition = "2021"
publish = false

[dependencies]
calamine-styles = { version = "=0.1.0", features = ["dates"] }
chrono = "=0.4.45"
rust_xlsxwriter = "=0.99.1"
zip = "=7.2.0"
