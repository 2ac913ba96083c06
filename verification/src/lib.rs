//! Generation of hierarchical directory records from a declarative format:
//! a small expression language for attribute values, the cache of text files
//! it draws random lines from, the per-class entry generators, and the
//! level-by-level scheduler that turns confirmed parents into new jobs.

pub mod cli;
pub mod config;
pub mod csv;
pub mod entries;
pub mod format;
pub mod ldap_pool;
pub mod ldif;
pub mod modifiers;
pub mod progress;
pub mod scheduler;
pub mod table;
pub mod text;
pub mod types;
