//! An API bridge that serves local HTTP endpoints to peers of a mesh network.
pub mod bytes;
pub mod clock;
pub mod config;
pub mod crypto;
pub mod discovery;
pub mod encoding;
pub mod headers;
pub mod hexadecimal;
pub mod http_fields;
pub mod json;
pub mod ordered;
pub mod p2p_server;
pub mod peers;
pub mod protocol;
pub mod proxy_engine;
pub mod ratelimit;
pub mod stats;
pub mod text;
pub mod transport;
pub mod tunnel;
