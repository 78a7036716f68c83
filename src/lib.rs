//! Certificate store, certificate cache and ZAP authentication logic for a
//! fleet of hosts and users that talk over CURVE-encrypted sockets.
//!
//! Messages are modelled as sequences of frames, each frame a byte string.
//! Sockets, key generation, Z85 encoding and files stay with the caller.
pub mod api;
pub mod bytes;
pub mod cert;
pub mod cert_cache;
pub mod error;
pub mod meta;
pub mod msg;
pub mod request_meta;
pub mod storage;
pub mod zap;
pub mod zap_proxy;
