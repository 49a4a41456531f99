//! Generator for fleet-style Nix configuration fragments.
//!
//! The crate builds small in-memory entities — bindings pulled in from
//! external sources ([`hive::Inherit`]), import references
//! ([`hive::Import`]), computed locals ([`hive::Variable`]), per-machine
//! scopes ([`hive::Configurations`]) and a top-level collection of scopes
//! ([`hive::NixosConfigurations`]) — and renders them as nested-block
//! configuration text.  Each scope derives the set of bindings its items
//! require, removes duplicates while keeping first-occurrence order, and
//! emits one `let … in` preamble per scope; two distinct bindings that
//! share a local name are rejected at construction time.

pub mod hive;
pub mod sink;
