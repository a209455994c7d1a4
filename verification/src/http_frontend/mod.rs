//! HTTP virtual hosting: routes, per-request decisions, the connection
//! acceptor and the plaintext companion listener.

pub mod acceptor;
pub mod redirect;
pub mod request;
pub mod route;
