[package]
name = "ble_gateway"
version = "0.1.0"
edition = "2021"
publish = false

[dependencies]
heapless = { version = "=0.9.3", features = ["serde"] }
hash32 = "=0.3.1"
postcard = { version = "=1.1.3", features = ["use-std"] }
serde = { version = "=1.0.229", features = ["derive"] }
serde_json = "=1.0.154"
trouble-host = { version = "=0.8.0", features = ["scan"] }
axum = "=0.8.9"
tokio = { version = "=1.54.1", features = ["macros", "rt-multi-thread", "net", "time", "sync", "io-util"] }
chrono = "=0.4.45"
minicbor = { version = "=2.3.1", features = ["derive", "alloc"] }
coap-handler = "=0.2.1"
coap-handler-implementations = "=0.6.4"
coap-message-utils = "=0.3.12"
minicbor-adapters = "=0.0.8"
