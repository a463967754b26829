[package]
name = "hcms_display"
version = "0.1.0"
edition = "2021"
publish = false

[dependencies]
heapless = "0.7"
embedded-hal = "0.2"
nb = "1"
log = "0.4"
teensy4-bsp = "0.2"
teensy4-panic = "0.2"
cortex-m = "0.7"
cortex-m-rt = "0.6"
