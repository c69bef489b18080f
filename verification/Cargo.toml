[package]
name = "llama_cpp_4"
version = "0.1.0"
edition = "2021"
publish = false

[dependencies]
encoding_rs = "=0.8.42"
thiserror = "=1.0.69"
llama-cpp-sys-4 = { version = "=0.9.0", features = ["mtmd", "rpc"] }
