//! Issues short-lived vault tokens to the services of one deployment.
//!
//! Given a merged service-definition tree for one deployment
//! (project x override x pod), the plugin injects `VAULT_ADDR`,
//! `VAULT_TOKEN` and further derived environment values into every
//! service's environment, resolving symbolic references such as
//! `$PROJECT` against the deployment identity and composing the
//! access-policy list for each service from the configuration document.

pub mod config;
pub mod context;
pub mod envmap;
pub mod errors;
pub mod interpolate;
pub mod plugin;
pub mod ps;
pub mod strutil;
pub mod tree;
pub mod vault;
pub mod vault_api;
