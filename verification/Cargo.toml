[package]
name = "processor"
version = "0.1.0"
edition = "2021"
publish = false

[dependencies]
chrono = "=0.4.45"
rust_decimal = "=1.43.0"
rust_decimal_macros = "=1.40.0"
polars = { version = "0.55", default-features = false, features = ["parquet", "dtype-datetime"] }
sea-orm = { version = "=0.11.3", default-features = false, features = ["macros"] }
sea-orm-migration = { version = "=0.11.3", default-features = false }
async-trait = "=0.1.92"
tokio = { version = "=1.54.1", features = ["macros", "rt-multi-thread"] }
tracing = "=0.1.44"
tracing-appender = "=0.2.5"
tracing-subscriber = { version = "=0.3.23", features = ["env-filter", "fmt"] }
figment = { version = "=0.10.19", features = ["toml"] }
