[package]
name = "turbo_html2pdf"
version = "0.3.1"
edition = "2021"
publish = false

[dependencies]
html5ever = "=0.39.0"
jpeg-decoder = "=0.3.2"
lopdf = "=0.36.0"
markup5ever_rcdom = "=0.39.0"
minijinja = "=2.24.0"
pdf-writer = "=0.15.0"
png = "=0.18.1"
serde = { version = "=1.0.229", features = ["derive"] }
taffy = "=0.8.3"
thiserror = "=2.0.21"
