//! The data model: stories, pages, choices, and the error taxonomy.

use vstd::prelude::*;

verus! {

/// Identifier of a story row.
pub type StoryId = i64;

/// Errors an operation of the layer can report.
///
/// `NotFound`: the requested id has no row. `StorageError`: a connection or
/// query failure in the storage engine. `InvalidArgument`: the caller handed
/// an argument the operation rejects, such as an empty patch.
#[derive(Clone, Copy, Debug, PartialEq, Eq, Structural)]
pub enum DbError {
    NotFound,
    StorageError,
    InvalidArgument,
}

/// A lightweight listing of one story, as returned when all stories are
/// enumerated.
#[derive(Clone, Debug, PartialEq)]
pub struct StoryListing {
    pub id: i64,
    pub title: String,
}

/// A labeled edge from one page to a target page.
#[derive(Clone, Debug, PartialEq)]
pub struct Choice {
    pub id: i64,
    pub page_id: i64,
    pub text: String,
    pub target_page: i64,
}

/// A fully hydrated page: its row fields together with its outgoing choices.
#[derive(Clone, Debug, PartialEq)]
pub struct Page {
    pub id: i64,
    pub story_id: i64,
    pub name: String,
    pub body: String,
    pub options: Vec<Choice>,
}

/// A fully hydrated story: its row fields together with all of its pages.
#[derive(Clone, Debug, PartialEq)]
pub struct Story {
    pub id: i64,
    pub title: String,
    pub start_page: Option<i64>,
    pub pages: Vec<Page>,
}

/// A partial update for one page: only the fields that are present are
/// written; an absent field is left untouched.
#[derive(Clone, Debug, PartialEq)]
pub struct PagePatch {
    pub id: i64,
    pub name: Option<String>,
    pub body: Option<String>,
}

/// One row of the `stories` table.
///
/// The storage engine also assigns a creation timestamp when the row is
/// inserted; no operation of this layer ever reads it back, so it is not
/// modeled here.
#[derive(Clone, Debug, PartialEq)]
pub struct StoryRow {
    pub id: i64,
    pub title: String,
    pub start_page: Option<i64>,
}

/// One row of the `pages` table, before its choices are attached.
#[derive(Clone, Debug, PartialEq)]
pub struct PageRow {
    pub id: i64,
    pub story_id: i64,
    pub name: String,
    pub body: String,
}

} // verus!
