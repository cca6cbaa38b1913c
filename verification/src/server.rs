//! The request pipeline: parsing, routing, method semantics, CGI and
//! responses.
pub mod cgi;
pub mod exchange;
pub mod files;
pub mod handle;
pub mod methods;
pub mod requests;
pub mod responses;
pub mod routes;
pub mod sessions;
pub mod state;
pub mod wire;
