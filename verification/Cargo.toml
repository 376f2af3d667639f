[package]
name = "jsonrpc_socket_client"
version = "0.1.0"
edition = "2021"
publish = false

[dependencies]
bytes = "1"
tokio-util = { version = "0.7", features = ["codec"] }
tokio = { version = "1", features = ["net", "macros", "rt-multi-thread"] }
futures-util = { version = "0.3", features = ["sink"] }
jsonrpsee-core = { version = "0.21", features = ["async-client"] }
thiserror = "1"
clap = { version = "4", features = ["derive"] }
