//! Certificate issuance and renewal over ACME.

pub mod account;
pub mod client;
pub mod cloudflare;
pub mod dns01;
pub mod error;
pub mod http01;
pub mod manager;
pub mod provider;
pub mod renewer;
pub mod storage;
