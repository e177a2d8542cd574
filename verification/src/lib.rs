//! Extracts a relational database's catalog into an in-memory schema model and
//! renders it as an entity-relationship diagram.
//!
//! The crate is organised around three stages:
//! - [`schema`] holds the normalized model (tables, columns, relations);
//! - [`loader`] maps raw catalog rows into a [`schema::Schema`], applying the
//!   load-time include/exclude filter and resolving primary keys from indexes;
//! - [`drawer`] renders a schema either as a graph-description document
//!   ([`drawer::dot`]) or as a plain-text dump ([`drawer::plain_text`]).
//!
//! Database access and command-line handling are left to the caller: the
//! library consumes plain row values and produces strings.

pub mod drawer;
pub mod filter;
pub mod loader;
pub mod opts;
pub mod schema;
pub mod text;
