[package]
name = "summary_plot"
version = "0.1.0"
edition = "2021"
publish = false

[dependencies]
linked-hash-map = "0.5"
criterion-plot = "0.4"
plotters = { version = "0.2", default-features = false, features = ["svg", "area_series", "line_series"] }
