[package]
name = "event_model"
version = "0.1.0"
edition = "2021"
publish = false

[dependencies]
graphviz-rust = "=0.9.9"
handlebars = "=6.4.4"
serde = { version = "=1.0.229", features = ["derive"] }
serde_json = "=1.0.154"
