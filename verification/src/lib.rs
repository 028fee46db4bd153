//! Persistence layer for a branching-narrative editor.
//!
//! A `Story` owns `Page`s; a `Page` owns `Choice`s, each a labeled edge to a
//! target page. This crate holds the verified core of the layer: the data
//! model, the semantics of every operation on the store (`store`), the
//! assembly of a full story graph from flat rows fetched in arbitrary order
//! (`assemble`), the partial-update statement builder (`patch`), and the
//! mapping of raw query results to model values (`rows`). A storage adapter
//! (SQLite or any other relational engine) executes the statements these
//! modules describe and feeds rows back in.

pub mod assemble;
pub mod models;
pub mod patch;
pub mod rows;
pub mod store;

pub use models::{Choice, DbError, Page, PagePatch, PageRow, Story, StoryId, StoryListing, StoryRow};
