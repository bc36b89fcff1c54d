[package]
name = "jj-mesh"
version = "0.1.0"
edition = "2021"
publish = false

[dependencies]
clap = { version = "=4.6.7", default-features = false, features = ["std", "derive", "help", "usage", "error-context"] }
clap_complete = { version = "=4.6.11", default-features = false, features = ["unstable-dynamic"] }
console = { version = "=0.16.6", default-features = false, features = ["std"] }
data-encoding = "=2.11.1"
etcetera = "=0.11.0"
gethostname = "=1.1.0"
indicatif = { version = "0.18", default-features = false }
iroh = { version = "=1.4.1", default-features = false }
postcard = { version = "=1.1.3", default-features = false, features = ["use-std"] }
rand = "0.10"
serde = { version = "=1.0.229", features = ["derive"] }
serde_json = "=1.0.154"
service-manager = { version = "=0.11.0", default-features = false }
tempfile = "=3.27.0"
tokio = { version = "=1.54.1", features = ["rt", "rt-multi-thread", "net", "time", "sync", "io-util", "macros", "signal", "process"] }
toml = "=0.9.12"
tracing = { version = "=0.1.44", default-features = false, features = ["std"] }
tracing-subscriber = { version = "=0.3.23", default-features = false, features = ["env-filter", "fmt"] }
