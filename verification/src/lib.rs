//! Verified decision core of a layer-4 / layer-7 reverse proxy.

pub mod acme;
pub mod addr;
pub mod canary;
pub mod certs;
pub mod clock;
pub mod forward;
pub mod h3_frontend;
pub mod h3_interpose;
pub mod headers;
pub mod http_frontend;
pub mod path;
pub mod proxy_protocol;
pub mod resolver;
pub mod rule;
pub mod strmap;
pub mod supervisor;
pub mod tcp;
pub mod text;
pub mod udp;
