[package]
name = "koi"
version = "0.1.0"
edition = "2021"
publish = false

[dependencies]
inkwell = { version = "=0.1.0", features = ["llvm14-0"] }
# The dynamic LLVM library is linked: a static one needs every component of LLVM.
llvm-sys = { version = "=140.1.3", features = ["prefer-dynamic"] }
