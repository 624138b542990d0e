[package]
name = "advisory_walker"
version = "0.1.0"
edition = "2021"
publish = false

[dependencies]
sha2 = "*"
url = "*"
walkdir = "*"
anyhow = "*"
fsquirrel = "*"
reqwest = { version = "*", default-features = false, features = ["blocking", "rustls-tls"] }
sequoia-openpgp = { version = "*", default-features = false, features = ["crypto-rust", "allow-experimental-crypto", "allow-variable-time-crypto"] }
