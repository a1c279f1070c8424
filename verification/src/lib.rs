//! `dev.mcpg.identity.ldap`: identity from an LDAP directory or Active
//! Directory.
//!
//! The library resolves a caller's identity from `Authorization: Basic` by
//! binding to a directory as the caller. The directory verifies the password;
//! the caller's group memberships become groups and roles of the identity.
//!
//! No function here does any input or output. A resolution is a
//! [`session::Session`]: it names the directory operation that is due and takes
//! in what the operation returned, until there is an outcome.
//!
//! - [`config`]: the configuration, its defaults and its checks.
//! - [`header`]: the credential that the headers of a request carry.
//! - [`dn`]: the first RDN of a distinguished name and its value.
//! - [`escape`]: escaping of user names for DNs and search filters.
//! - [`ldap`]: what a directory answers, and what the answers mean.
//! - [`session`]: the exchange with a directory, step by step.
//! - [`plugin`]: the resolver, which ties these together.
//! - [`laws`]: what holds of every resolution.
//! - [`octets`], [`text`], [`string_map`]: base64 and UTF-8, characters, and a
//!   map with text keys.

pub mod config;
pub mod dn;
pub mod escape;
pub mod header;
pub mod laws;
pub mod ldap;
pub mod octets;
pub mod plugin;
pub mod session;
pub mod string_map;
pub mod text;

pub use config::{BindMode, ConfigError, LdapIdentityConfig, ResolutionConfig};
pub use ldap::{BindOutcome, DirectoryUser};
pub use plugin::LdapIdentityPlugin;
