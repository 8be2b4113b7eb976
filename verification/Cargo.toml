[package]
name = "model_operator"
version = "0.1.0"
edition = "2021"
publish = false

[dependencies]
tantivy = { version = "=0.26.2", default-features = false, features = ["stemmer"] }
murmur3 = "=0.5.2"
serde = { version = "=1.0.229", features = ["derive"] }
serde_json = "=1.0.151"
ureq = { version = "=3.4.2", features = ["json"] }
reqwest = { version = "=0.12.28", default-features = false, features = ["json"] }
futures = "=0.3.34"
openai_dive = "=1.4.3"
