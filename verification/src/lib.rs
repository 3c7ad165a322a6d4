//! Resolution of runtime memory addresses to human-readable symbols.
//!
//! A loaded, immutable [`database::Database`] holds one binary image per
//! identity key; each image owns a sorted [`symtab::SymbolTable`]. The
//! [`registry::Registry`] caches databases per SDK identifier with
//! single-flight loading and bounded eviction, and feeds the health monitor.
//! [`resolve`] turns runtime addresses back into link-space addresses and
//! looks them up.

pub mod database;
pub mod registry;
pub mod resolve;
pub mod errors;
pub mod image;
pub mod symtab;
