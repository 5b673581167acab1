[package]
name = "mqtt_broker"
version = "0.1.0"
edition = "2021"
publish = false

[dependencies]
base64 = "0.13"
uuid = { version = "1", features = ["v4"] }
mqtt_packet_3_5 = "*"
http = "0.2"
httparse = "1"
prometheus = "0.13"
