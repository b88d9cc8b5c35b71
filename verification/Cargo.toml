[package]
name = "order_book"
version = "0.1.0"
edition = "2021"
publish = false

[dependencies]
jemallocator = "*"
polars = { version = "*", default-features = false, features = ["dtype-struct", "dtype-array"] }
pyo3 = { version = "*", features = ["extension-module"] }
pyo3-polars = { version = "*", features = ["derive"] }
serde = { version = "1", features = ["derive"] }
thiserror = "*"
