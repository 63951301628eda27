[package]
name = "bep_rs"
version = "0.1.0"
edition = "2021"
publish = false

[dependencies]
data-encoding = "=2.11.1"
ring = "=0.17.14"
rand = "=0.9.5"
lz4_flex = "=0.11.6"
prost = "=0.12.6"
tokio = { version = "=1.54.1", features = ["full"] }
tokio-rustls = { version = "=0.24.1", features = ["dangerous_configuration"] }
tokio-util = { version = "=0.7.20", features = ["rt"] }
futures = "=0.3.34"
notify = "=6.1.1"
diesel = { version = "=2.3.14", features = ["sqlite", "returning_clauses_for_sqlite_3_35"] }
log = "=0.4.35"
thiserror = "=1.0.69"
rcgen = "=0.11.3"
