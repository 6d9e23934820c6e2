[package]
name = "gluon_language_server"
version = "0.17.0"
edition = "2021"
publish = false

[dependencies]
anyhow = "1"
async-trait = "0.1"
bytes = "1"
clap = "2"
codespan = "=0.2.1"
codespan-lsp = "=0.13.1"
codespan-reporting = "=0.13.1"
combine = "=4.6.9"
debugserver-types = "=0.5.0"
either = "1"
env_logger = "0.7"
futures = { version = "0.3", features = ["compat"] }
gluon = { version = "=0.18.4", features = ["gluon_completion"] }
gluon_base = "=0.18.4"
gluon_completion = "=0.18.4"
gluon_format = "=0.18.4"
jsonrpc-core = "14"
log = "0.4"
lsp-types = "=0.91.1"
serde = { version = "1", features = ["derive"] }
serde_json = "=1.0.154"
tokio = { version = "1", features = ["full"] }
tokio-util = { version = "0.7", features = ["codec"] }
url = { version = "=2.5.8", features = ["serde"] }
