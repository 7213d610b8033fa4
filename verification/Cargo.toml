[package]
name = "esp32c6_matter_human_detection"
version = "0.1.0"
edition = "2021"
publish = false

[dependencies]
heapless = "0.8"
log = "0.4"
embassy-sync = "*"
embassy-time = "*"
embassy-futures = "*"
embassy-executor = "*"
embassy-embedded-hal = "*"
static_cell = "*"
esp-hal = "*"
esp-println = "*"
esp-alloc = "*"
esp-backtrace = "*"
esp-rtos = "*"
esp-radio = "*"
esp-storage = "*"
esp-bootloader-esp-idf = "*"
esp-metadata-generated = "*"
tinyrlibc = "*"
bt-hci = "*"
openthread = "*"
rs-matter-embassy = "*"
