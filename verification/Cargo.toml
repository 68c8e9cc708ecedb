[package]
name = "sn_dbc_examples"
version = "0.1.0"
edition = "2021"
publish = false

[dependencies]
sn_dbc = { version = "=20.0.0", features = ["serdes", "mock"] }
bls_dkg = "=0.9.2"
hex = "=0.4.3"
ron = "=0.12.2"
bincode = "=1.3.3"
serde = { version = "=1.0.229", features = ["derive"] }
rand = "=0.7.3"
qp2p = "=0.36.4"
tokio = { version = "=1.53.2", features = ["full"] }
structopt = "=0.3.26"
miette = "=7.6.0"
env_logger = "=0.11.11"
log = "=0.4.34"
rustyline = "=18.0.1"
chrono = "=0.4.45"
bytes = "=1.12.1"
termios = "=0.3.3"
