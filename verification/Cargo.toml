[package]
name = "ontology_triggers"
version = "0.1.0"
edition = "2021"
publish = false

[dependencies]
iri_s = "=0.1.147"
oxrdf = "=0.3.4"
prefixmap = "=0.1.149"
serde = { version = "1", features = ["derive"] }
serde_yml = "=0.0.13"
srdf = "=0.1.147"
