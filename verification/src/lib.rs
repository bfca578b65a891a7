//! Roles for mail addresses. A user who can read the mail of an address that
//! is registered gets the roles of that address: the bot sends a signed token
//! to the address, and gives the roles to the user who hands the token back
//! before it expires.
//!
//! - `config`: the configuration and how it is read from YAML
//! - `problems`: all that is wrong with a configuration
//! - `grants`: the table from addresses to roles and how it is built
//! - `table_laws`: what the table holds, rule by rule
//! - `claims`: the payload of a token
//! - `jwt`: tokens, issued and judged
//! - `flow`: the two requests of a user
//! - `mail`: the mail that carries a token
//! - `replies`: what the bot says
//! - `yaml`, `b64`, `digits`: YAML trees, base64 text, decimal text

pub mod digits;
pub mod b64;
pub mod yaml;
pub mod config;
pub mod problems;
pub mod grants;
pub mod table_laws;
pub mod claims;
pub mod jwt;
pub mod flow;
pub mod mail;
pub mod replies;
