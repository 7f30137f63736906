[package]
name = "container_rack_web"
version = "0.1.0"
edition = "2021"
publish = false

[dependencies]
chrono = "=0.4.45"
console_error_panic_hook = "=0.1.7"
console_log = "=1.1.0"
container-rack-lib = "=0.3.3"
leptos = { version = "=0.6.15", features = ["csr"] }
leptos_router = { version = "=0.6.15", features = ["csr"] }
log = "=0.4.34"
