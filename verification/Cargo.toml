[package]
name = "split_cache"
version = "0.1.0"
edition = "2021"
publish = false

[dependencies]
lru = "=0.12.5"
ulid = "=1.2.1"
whichlang = "=0.1.1"
anyhow = "1"
serde_yaml = "0.9"
nom = "7"
tokio = { version = "1", default-features = false, features = ["sync", "time"] }
warp = { version = "0.3", default-features = false }
tantivy = { version = "0.21", default-features = false }
lindera-tantivy = { version = "=0.27.1", default-features = false }
lindera-core = "0.27"
lindera-dictionary = "0.27"

[dev-dependencies]
bytesize = "=1.3.3"
