[package]
name = "hidshift"
version = "0.1.0"
edition = "2021"
publish = false

[dependencies]
aes = "0.8"
cmac = "0.7"
embassy-executor = { version = "*", features = ["arch-std", "executor-thread"] }
embassy-futures = "*"
embassy-sync = "*"
heapless = "0.8"
log = "0.4"
static_cell = "2"

[dev-dependencies]
hidreport = "*"
