//! The partial-update ("patch") statement builder.
//!
//! A patch names at most two page columns. The builder turns it into an
//! explicit statement description — the SET columns in a fixed order, name
//! before body, the values to bind positionally in that same order, and the
//! page id to bind last — and rejects a patch that names no column at all,
//! instead of ever producing a SET clause with nothing to set. The SQL text
//! is rendered from fixed column fragments only; caller-controlled text
//! travels exclusively as bind values.

use vstd::prelude::*;
use vstd::string::StringExecFns;

use crate::models::{DbError, PagePatch};
use crate::store::empty_patch;

verus! {

/// A page column a patch may set.
#[derive(Clone, Copy, Debug, PartialEq, Eq, Structural)]
pub enum PageColumn {
    Name,
    Body,
}

/// An UPDATE of one page row, described explicitly: the columns of the SET
/// clause in order, the values to bind positionally in the same order, and
/// the id for the WHERE clause, to be bound after the values.
#[derive(Debug)]
pub struct PatchStatement {
    pub columns: Vec<PageColumn>,
    pub values: Vec<String>,
    pub page_id: i64,
}

/// The SET columns a patch calls for, name before body.
pub open spec fn set_columns(patch: PagePatch) -> Seq<PageColumn> {
    if patch.name is Some && patch.body is Some {
        seq![PageColumn::Name, PageColumn::Body]
    } else if patch.name is Some {
        seq![PageColumn::Name]
    } else if patch.body is Some {
        seq![PageColumn::Body]
    } else {
        Seq::empty()
    }
}

/// The bind values a patch calls for, in the same order as its columns.
pub open spec fn set_values(patch: PagePatch) -> Seq<String> {
    if patch.name is Some && patch.body is Some {
        seq![patch.name->Some_0, patch.body->Some_0]
    } else if patch.name is Some {
        seq![patch.name->Some_0]
    } else if patch.body is Some {
        seq![patch.body->Some_0]
    } else {
        Seq::empty()
    }
}

/// Builds the statement description for a patch of page `page_id`: exactly
/// the supplied fields, name before body, values positionally aligned. A
/// patch that supplies no field is rejected as `InvalidArgument`, never
/// turned into a statement.
pub fn build_patch_statement(page_id: i64, patch: &PagePatch) -> (r: Result<
    PatchStatement,
    DbError,
>)
    ensures
        r is Err <==> empty_patch(*patch),
        r matches Err(e) ==> e == DbError::InvalidArgument,
        r matches Ok(s) ==> s.page_id == page_id && s.columns@ == set_columns(*patch)
            && s.values@ == set_values(*patch),
{
    let mut columns: Vec<PageColumn> = Vec::new();
    let mut values: Vec<String> = Vec::new();
    match &patch.name {
        Some(n) => {
            columns.push(PageColumn::Name);
            values.push(n.clone());
        },
        None => {},
    }
    match &patch.body {
        Some(b) => {
            columns.push(PageColumn::Body);
            values.push(b.clone());
        },
        None => {},
    }
    if columns.is_empty() {
        return Err(DbError::InvalidArgument);
    }
    proof {
        assert(columns@ =~= set_columns(*patch));
        assert(values@ =~= set_values(*patch));
    }
    Ok(PatchStatement { columns, values, page_id })
}

/// The SQL fragment of one SET column: a fixed column name and a
/// placeholder.
pub open spec fn column_sql(c: PageColumn) -> Seq<char> {
    match c {
        PageColumn::Name => "name = ?"@,
        PageColumn::Body => "content = ?"@,
    }
}

/// The column fragments joined with comma separators.
pub open spec fn joined_columns(cols: Seq<PageColumn>) -> Seq<char>
    decreases cols.len(),
{
    if cols.len() == 0 {
        Seq::empty()
    } else if cols.len() == 1 {
        column_sql(cols[0])
    } else {
        joined_columns(cols.drop_last()) + ", "@ + column_sql(cols.last())
    }
}

/// The full parameterized UPDATE text for the given SET columns.
pub open spec fn update_sql(cols: Seq<PageColumn>) -> Seq<char> {
    "UPDATE pages SET "@ + joined_columns(cols) + " WHERE id = ?;"@
}

/// Appends one column's fixed fragment.
fn push_column_sql(out: &mut String, c: PageColumn)
    ensures
        final(out)@ == old(out)@ + column_sql(c),
{
    match c {
        PageColumn::Name => out.append("name = ?"),
        PageColumn::Body => out.append("content = ?"),
    }
}

/// Renders the statement's SQL text: the fixed UPDATE prefix, the fixed
/// fragment of each SET column joined by commas, and the WHERE clause on
/// the id placeholder. Only fixed fragments are concatenated; every value
/// is left to be bound to a placeholder.
pub fn render_update_sql(stmt: &PatchStatement) -> (r: String)
    requires
        stmt.columns@.len() > 0,
    ensures
        r@ == update_sql(stmt.columns@),
{
    let mut out = "UPDATE pages SET ".to_owned();
    let n = stmt.columns.len();
    push_column_sql(&mut out, stmt.columns[0]);
    proof {
        assert(stmt.columns@.take(1).drop_last() =~= Seq::<PageColumn>::empty());
        assert(stmt.columns@.take(1)[0] == stmt.columns@[0]);
        assert(out@ == "UPDATE pages SET "@ + joined_columns(stmt.columns@.take(1)));
    }
    for k in 1..n
        invariant
            n == stmt.columns@.len(),
            out@ == "UPDATE pages SET "@ + joined_columns(stmt.columns@.take(k as int)),
    {
        out.append(", ");
        push_column_sql(&mut out, stmt.columns[k]);
        proof {
            let t = stmt.columns@.take(k + 1);
            assert(t.drop_last() =~= stmt.columns@.take(k as int));
            assert(t.last() == stmt.columns@[k as int]);
            assert(out@ =~= "UPDATE pages SET "@ + joined_columns(t));
        }
    }
    proof {
        assert(stmt.columns@.take(n as int) =~= stmt.columns@);
    }
    out.append(" WHERE id = ?;");
    proof {
        assert(out@ =~= update_sql(stmt.columns@));
    }
    out
}

} // verus!
