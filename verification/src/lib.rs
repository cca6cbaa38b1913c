//! The request-handling core of a small configuration-driven HTTP/1.1 server:
//! request parsing, route resolution, method semantics, CGI preparation and
//! response serialisation, each stated as a contract over plain values.
pub mod client;
pub mod headers;
pub mod log;
pub mod message;
pub mod server;
pub mod server_config;
pub mod status;
pub mod text;
pub mod type_aliases;
