//! Queries over the attributes attached to a declaration.
//!
//! An attribute is a tree of `Meta` nodes: a bare path (`#[a]`), a path with a
//! parenthesised list of nested nodes (`#[a(b, c = 1)]`), or a path bound to a
//! value (`#[a = "x"]`). A query names a chain of identifiers, one per level of
//! nesting, and only outer attributes (`#[..]`, not `#![..]`) are consulted.
pub mod attr_map;
pub mod lit_cast;
pub mod meta;
pub mod query;

pub use crate::lit_cast::{CastError, FromLit};
pub use crate::meta::{AttrStyle, Attribute, Lit, Meta, Path};
pub use crate::attr_map::{get_attribute_map, get_attribute_map_impl, try_get_attribute_map};
pub use crate::query::{
    contains_attribute, contains_attribute_impl, get_attribute_value, get_attribute_value_impl,
};
