[package]
name = "polar_pilot"
version = "0.1.0"
edition = "2021"
publish = false

[dependencies]
defmt = "=1.2.0"
defmt-rtt = "=1.3.1"
embassy-executor = { version = "=0.9.1", features = ["defmt"] }
embassy-net = { version = "=0.9.1", features = ["defmt", "tcp", "dhcpv4", "medium-ethernet", "proto-ipv4"] }
embassy-net-wiznet = "=0.3.0"
embassy-stm32 = { version = "=0.6.0", features = ["defmt", "stm32l432kc", "time-driver-tim15", "exti", "memory-x", "unstable-pac"] }
embassy-sync = "=0.8.0"
embassy-time = { version = "=0.5.1", features = ["defmt"] }
embedded-graphics = "=0.8.2"
embedded-hal-bus = { version = "=0.3.0", features = ["async"] }
embedded-io-async = "=0.7.0"
heapless = "=0.9.3"
libm = "=0.2.16"
panic-probe = "=1.0.0"
panic-reset = "=0.1.1"
ssd1306 = "=0.10.0"
static_cell = "=2.1.1"
