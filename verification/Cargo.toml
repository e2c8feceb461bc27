[package]
name = "render_backend"
version = "0.1.0"
edition = "2021"
publish = false

[dependencies]
app_units = "*"
euclid = "*"
fnv = "1"
scoped_threadpool = "*"
string_cache = "*"
