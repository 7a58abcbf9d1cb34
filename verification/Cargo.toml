[package]
name = "sftrace"
version = "0.1.0"
edition = "2021"
publish = false

[dependencies]
addr2line = "=0.27.1"
anyhow = "=1.0.104"
argh = "=0.1.19"
cbor4ii = { version = "=1.2.4", features = ["serde1", "use_std"] }
clear-cache = "=0.1.3"
directories = "=6.0.0"
findshlibs = "=0.10.2"
glob = "=0.3.4"
indexmap = "=2.14.2"
libc = "=0.2.191"
mach2 = "=0.7.0"
memmap2 = "=0.9.12"
object = "=0.40.0"
plotly = "=0.14.1"
rayon = "=1.12.0"
regex = "=1.13.1"
serde = { version = "=1.0.229", features = ["derive"] }
serde_bytes = "=0.11.19"
siphasher = "=1.0.4"
