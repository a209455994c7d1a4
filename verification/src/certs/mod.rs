//! TLS certificates: where a host's certificate comes from, the store that
//! serves it, and hot reload.

pub mod files;
pub mod loader;
pub mod origin;
pub mod pem;
pub mod store;
pub mod watcher;
