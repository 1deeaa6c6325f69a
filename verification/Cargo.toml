[package]
name = "qspi_nor"
version = "0.1.0"
edition = "2021"
publish = false

[dependencies]
flash-algorithm = { version = "=0.7.0", default-features = false, features = ["erase-chip", "read-flash", "verify"] }
panic-probe = "=1.0.0"
rtt-target = "=0.6.2"
stm32h7xx-hal = { version = "=0.16.0", features = ["stm32h743v", "xspi"] }
