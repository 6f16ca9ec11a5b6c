[package]
name = "adbc-spanner"
version = "0.1.0"
edition = "2021"
publish = false

[dependencies]
adbc_core = "=0.25.0"
arbitrary = { version = "=1.5.0", features = ["derive"] }
arrow-array = { version = "=60.1.0", features = ["ffi"] }
arrow-buffer = "=60.1.0"
arrow-data = "=60.1.0"
arrow-schema = "=60.1.0"
chrono = "=0.4.45"
google-cloud-gax = "=1.15.0"
google-cloud-spanner = "=0.33.0"
libc = "=0.2.191"
tokio = { version = "=1.54.1", features = ["rt-multi-thread", "sync", "macros", "time"] }
