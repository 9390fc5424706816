//! Decision and wire-format logic for keeping direct IPv4 TCP mappings open
//! behind a full-cone NAT: STUN message framing, HTTP keepalive response
//! validation, configuration checks and the mapping worker's bookkeeping.

pub mod bytes;
pub mod config;
pub mod endpoint;
pub mod http;
pub mod mapping;
pub mod net;
pub mod notify;
pub mod stun;
pub mod text;

pub use config::{Cli, Config, Mapping};
pub use endpoint::Endpoint;
pub use http::validate_http_response;
pub use notify::script_arguments;
pub use stun::{STUN_BINDING_SUCCESS, STUN_MAGIC_COOKIE, XOR_MAPPED_ADDRESS, parse_xor_mapped_address};
