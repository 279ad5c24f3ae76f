pub mod auth;
pub mod caveman;
pub mod context_mode;
pub mod context_snr;
pub mod external_cli;
pub mod hooks;
pub mod integration_support;
pub mod jsbash;
pub mod json;
pub mod memex;
pub mod memory;
pub mod order;
pub mod rtk;
pub mod schema;
pub mod table;
pub mod text;
pub mod tool;
