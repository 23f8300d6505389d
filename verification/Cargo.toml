[package]
name = "led_patterns"
version = "0.1.0"
edition = "2021"
publish = false

[dependencies]
cortex-m = "=0.7.10"
cortex-m-rt = "=0.7.7"
embedded-hal = { version = "=0.2.7", features = ["unproven"] }
rp-pico = "=0.9.0"
usb-device = "=0.3.2"
usbd-serial = "=0.2.2"
