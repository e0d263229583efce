[package]
name = "fetchurl_sdk"
version = "0.1.0"
edition = "2021"
publish = false

[dependencies]
digest = "0.10"
rand = "0.8"
sha1 = "0.10"
sha2 = "0.10"
thiserror = "1"
