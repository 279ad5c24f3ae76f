//! Credentials of providers.

pub mod grok;
