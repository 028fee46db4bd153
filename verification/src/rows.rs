//! Mapping between raw query results and model values.
//!
//! The storage adapter hands over what its driver returned — column tuples
//! and affected-row counts — and these functions turn that into model
//! values and outcomes, so the adapter itself decides nothing.

use vstd::prelude::*;

use crate::models::{Choice, DbError, PageRow, StoryListing};

verus! {

/// One `{id, title}` listing per fetched story row, in row order.
pub fn listings_from_rows(rows: Vec<(i64, String)>) -> (r: Vec<StoryListing>)
    ensures
        r@.len() == rows@.len(),
        forall|i: int|
            0 <= i < r@.len() ==> (#[trigger] r@[i]).id == rows@[i].0 && r@[i].title == rows@[i].1,
{
    let mut out: Vec<StoryListing> = Vec::new();
    let n = rows.len();
    for k in 0..n
        invariant
            n == rows@.len(),
            out@.len() == k,
            forall|i: int|
                0 <= i < k ==> (#[trigger] out@[i]).id == rows@[i].0 && out@[i].title == rows@[i].1,
    {
        let listing = StoryListing { id: rows[k].0, title: rows[k].1.clone() };
        out.push(listing);
    }
    out
}

/// A choice equals its fetched row `(id, page_id, text, target_page)`.
pub open spec fn choice_matches_row(c: Choice, row: (i64, i64, String, i64)) -> bool {
    c.id == row.0 && c.page_id == row.1 && c.text == row.2 && c.target_page == row.3
}

/// One choice per fetched choice row, in row order.
pub fn choices_from_rows(rows: Vec<(i64, i64, String, i64)>) -> (r: Vec<Choice>)
    ensures
        r@.len() == rows@.len(),
        forall|i: int| 0 <= i < r@.len() ==> choice_matches_row(#[trigger] r@[i], rows@[i]),
{
    let mut out: Vec<Choice> = Vec::new();
    let n = rows.len();
    for k in 0..n
        invariant
            n == rows@.len(),
            out@.len() == k,
            forall|i: int| 0 <= i < k ==> choice_matches_row(#[trigger] out@[i], rows@[i]),
    {
        let c = Choice {
            id: rows[k].0,
            page_id: rows[k].1,
            text: rows[k].2.clone(),
            target_page: rows[k].3,
        };
        out.push(c);
    }
    out
}

/// A page row equals its fetched tuple `(id, story_id, name, body)`.
pub open spec fn page_row_matches_row(p: PageRow, row: (i64, i64, String, String)) -> bool {
    p.id == row.0 && p.story_id == row.1 && p.name == row.2 && p.body == row.3
}

/// One page row per fetched tuple, in row order.
pub fn page_rows_from_rows(rows: Vec<(i64, i64, String, String)>) -> (r: Vec<PageRow>)
    ensures
        r@.len() == rows@.len(),
        forall|i: int| 0 <= i < r@.len() ==> page_row_matches_row(#[trigger] r@[i], rows@[i]),
{
    let mut out: Vec<PageRow> = Vec::new();
    let n = rows.len();
    for k in 0..n
        invariant
            n == rows@.len(),
            out@.len() == k,
            forall|i: int| 0 <= i < k ==> page_row_matches_row(#[trigger] out@[i], rows@[i]),
    {
        let p = PageRow {
            id: rows[k].0,
            story_id: rows[k].1,
            name: rows[k].2.clone(),
            body: rows[k].3.clone(),
        };
        out.push(p);
    }
    out
}

/// The outcome of a write that was meant to touch one existing row: zero
/// rows affected means the row was absent — `NotFound`, never silent
/// success.
pub fn rows_affected_outcome(rows_affected: u64) -> (r: Result<(), DbError>)
    ensures
        rows_affected == 0 ==> r == Err::<(), DbError>(DbError::NotFound),
        rows_affected != 0 ==> r == Ok::<(), DbError>(()),
{
    if rows_affected == 0 {
        Err(DbError::NotFound)
    } else {
        Ok(())
    }
}

} // verus!
