//! What runs for which rule, and what a new rule set changes about it.

pub mod cert_config;
pub mod https;
pub mod reconcile;
