[package]
name = "lcd_display"
version = "0.1.0"
edition = "2021"
publish = false

[dependencies]
bitset-core = "=0.1.1"
embassy-executor = "=0.7.0"
embedded-graphics = "=0.8.2"
embedded-graphics-core = "=0.4.1"
embedded-vintage-fonts = "=0.2.0"
esp-alloc = "=0.8.0"
esp-backtrace = { version = "0.16.0", features = ["esp32s3"] }
esp-bootloader-esp-idf = "0.1.0"
esp-hal = { version = "=1.0.0-beta.1", features = ["esp32s3", "unstable"] }
esp-hal-embassy = { version = "0.8.1", features = ["esp32s3"] }
esp-println = { version = "0.14.0", features = ["esp32s3"] }
esp-wifi = { version = "0.14.1", features = ["esp32s3", "wifi"] }
log = "=0.4.34"
