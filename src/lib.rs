//! The core of a personal content archive: the stored form of multi-valued
//! fields, a compiler from URL filter strings to parameterised predicates, and
//! the engine that serves pages of entries, filtered or in a seeded discovery
//! order.
pub mod text;
pub mod number;
pub mod sql_array;
pub mod date;
pub mod entry_type;
pub mod forms;
pub mod query;
pub mod retrieval;
pub mod store;
pub mod paths;
pub mod html_meta;
pub mod images;
