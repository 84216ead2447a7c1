[package]
name = "cairo_coverage_core"
version = "0.1.0"
edition = "2021"
publish = false

[dependencies]
ignore = "=0.4.33"
anyhow = "=1.0.104"
camino = "=1.2.6"
clap = { version = "=4.6.7", features = ["derive"] }
serde = { version = "=1.0.229", features = ["derive"] }
serde_json = "=1.0.151"
rayon = "=1.12.0"
walkdir = "=2.5.0"
console = "=0.16.6"
semver = "=1.0.28"
scarb-metadata = "=1.15.1"
cairo-annotations = { version = "=1.0.1", features = ["cairo-lang"] }
cairo-lang-sierra = "=2.20.0"
cairo-lang-sierra-to-casm = "=2.20.0"
cairo-lang-sierra-type-size = "=2.20.0"
cairo-lang-starknet-classes = "=2.20.0"
