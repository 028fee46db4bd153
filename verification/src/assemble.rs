//! Assembly of a full story graph from flat rows.
//!
//! The adapter fetches a story's page rows with one query and then fetches
//! the choices of each page independently — concurrently, bounded by its
//! connection pool — collecting one keyed result per page in whatever order
//! the fetches complete. `assemble_story` turns those pieces into the nested
//! story: it attaches each page's choices by key, never by arrival position,
//! and orders the pages ascending by id, so the assembled story is the same
//! whatever order the per-page results came back in
//! (`lemma_assembly_deterministic`).

use vstd::prelude::*;

use crate::models::{Choice, Page, PageRow, Story};

verus! {

/// The choices fetched for one page, keyed by that page's id.
pub struct PageChoices {
    pub page_id: i64,
    pub choices: Vec<Choice>,
}

/// The choices recorded for `page_id`: those of the first result carrying
/// that key, or none when no result carries it.
pub open spec fn choices_for(sets: Seq<PageChoices>, page_id: i64) -> Seq<Choice>
    decreases sets.len(),
{
    if sets.len() == 0 {
        Seq::empty()
    } else if sets[0].page_id == page_id {
        sets[0].choices@
    } else {
        choices_for(sets.drop_first(), page_id)
    }
}

/// No two results carry the same key.
pub open spec fn distinct_keys(sets: Seq<PageChoices>) -> bool {
    forall|i: int, j: int|
        #![trigger sets[i], sets[j]]
        0 <= i < j < sets.len() ==> sets[i].page_id != sets[j].page_id
}

/// Ascending by id, duplicates allowed.
pub open spec fn sorted_by_id(s: Seq<PageRow>) -> bool {
    forall|i: int, j: int| #![trigger s[i], s[j]] 0 <= i < j < s.len() ==> s[i].id <= s[j].id
}

/// `r` inserted into a sequence sorted ascending by id, after any row with
/// the same id.
pub open spec fn insert_by_id(s: Seq<PageRow>, r: PageRow) -> Seq<PageRow>
    decreases s.len(),
{
    if s.len() == 0 {
        seq![r]
    } else if s.last().id <= r.id {
        s.push(r)
    } else {
        insert_by_id(s.drop_last(), r).push(s.last())
    }
}

/// The rows rearranged ascending by id: insertion sort, stable.
pub open spec fn sort_by_id(s: Seq<PageRow>) -> Seq<PageRow>
    decreases s.len(),
{
    if s.len() == 0 {
        Seq::empty()
    } else {
        insert_by_id(sort_by_id(s.drop_last()), s.last())
    }
}

/// `p` is row `row` with the choices keyed to the row's id attached.
pub open spec fn assembled(p: Page, row: PageRow, sets: Seq<PageChoices>) -> bool {
    &&& p.id == row.id
    &&& p.story_id == row.story_id
    &&& p.name == row.name
    &&& p.body == row.body
    &&& p.options@ == choices_for(sets, row.id)
}

/// Assembled pages, ascending by id.
pub open spec fn sorted_by_id_pages(ps: Seq<Page>) -> bool {
    forall|i: int, j: int| #![trigger ps[i], ps[j]] 0 <= i < j < ps.len() ==> ps[i].id <= ps[j].id
}

/// `ps` assembles `rows` pointwise, in the same order.
pub open spec fn assembled_all(ps: Seq<Page>, rows: Seq<PageRow>, sets: Seq<PageChoices>) -> bool {
    &&& ps.len() == rows.len()
    &&& forall|i: int| 0 <= i < ps.len() ==> assembled(#[trigger] ps[i], rows[i], sets)
}

/// Inserting into a sorted sequence keeps it sorted, grows it by one, adds
/// exactly the new row to its contents, and invents no row.
pub proof fn lemma_insert_by_id_props(s: Seq<PageRow>, r: PageRow)
    requires
        sorted_by_id(s),
    ensures
        sorted_by_id(insert_by_id(s, r)),
        insert_by_id(s, r).len() == s.len() + 1,
        insert_by_id(s, r).to_multiset() == s.to_multiset().insert(r),
        forall|i: int|
            0 <= i < insert_by_id(s, r).len() ==> #[trigger] insert_by_id(s, r)[i] == r
                || s.contains(insert_by_id(s, r)[i]),
    decreases s.len(),
{
    broadcast use vstd::seq_lib::group_to_multiset_ensures;

    let out = insert_by_id(s, r);
    if s.len() == 0 {
        assert(out =~= Seq::empty().push(r));
        assert(out.to_multiset() =~= s.to_multiset().insert(r));
    } else if s.last().id <= r.id {
        assert(forall|i: int| 0 <= i < s.len() ==> (#[trigger] s[i]).id <= s.last().id);
    } else {
        let sub = s.drop_last();
        lemma_insert_by_id_props(sub, r);
        let t = insert_by_id(sub, r);
        assert(s =~= sub.push(s.last()));
        assert(s.to_multiset() == sub.to_multiset().insert(s.last()));
        assert(out.to_multiset() =~= s.to_multiset().insert(r));
        assert forall|i: int, j: int|
            #![trigger out[i], out[j]]
            0 <= i < j < out.len() implies out[i].id <= out[j].id by {
            if j < t.len() {
                assert(t[i].id <= t[j].id);
            } else {
                assert(out[j] == s.last());
                if t[i] == r {
                    assert(r.id <= s.last().id);
                } else {
                    let k = choose|k: int| 0 <= k < sub.len() && sub[k] == t[i];
                    assert(sub[k].id <= s.last().id);
                }
            }
        }
        assert forall|i: int|
            0 <= i < out.len() implies #[trigger] out[i] == r || s.contains(out[i]) by {
            if i < t.len() {
                if t[i] != r {
                    let k = choose|k: int| 0 <= k < sub.len() && sub[k] == t[i];
                    assert(s[k] == out[i]);
                }
            } else {
                assert(out[i] == s.last());
                assert(s[s.len() - 1] == s.last());
            }
        }
    }
}

/// Sorting orders the rows ascending by id and neither loses, duplicates
/// nor invents a row.
pub proof fn lemma_sort_by_id_props(s: Seq<PageRow>)
    ensures
        sorted_by_id(sort_by_id(s)),
        sort_by_id(s).len() == s.len(),
        sort_by_id(s).to_multiset() == s.to_multiset(),
    decreases s.len(),
{
    broadcast use vstd::seq_lib::group_to_multiset_ensures;

    if s.len() == 0 {
        assert(sort_by_id(s).to_multiset() =~= s.to_multiset());
    } else {
        let sub = s.drop_last();
        lemma_sort_by_id_props(sub);
        lemma_insert_by_id_props(sort_by_id(sub), s.last());
        assert(s =~= sub.push(s.last()));
        assert(s.to_multiset() == sub.to_multiset().insert(s.last()));
    }
}

/// Inserting at the scan position — past every row whose id is not above
/// the new one — is what `insert_by_id` means.
proof fn lemma_insert_by_id_at(s: Seq<PageRow>, r: PageRow, idx: int)
    requires
        sorted_by_id(s),
        0 <= idx <= s.len(),
        forall|j: int| 0 <= j < idx ==> (#[trigger] s[j]).id <= r.id,
        idx < s.len() ==> r.id < s[idx].id,
    ensures
        insert_by_id(s, r) == s.insert(idx, r),
    decreases s.len(),
{
    if s.len() == 0 {
        assert(insert_by_id(s, r) =~= s.insert(0, r));
    } else if s.last().id <= r.id {
        assert(idx == s.len()) by {
            if idx < s.len() {
                assert(s[idx].id <= s[s.len() - 1].id);
            }
        }
        assert(insert_by_id(s, r) =~= s.insert(idx, r));
    } else {
        let sub = s.drop_last();
        assert(idx < s.len()) by {
            if idx == s.len() {
                assert(s[s.len() - 1].id <= r.id);
            }
        }
        lemma_insert_by_id_at(sub, r, idx);
        assert(insert_by_id(sub, r).push(s.last()) =~= s.insert(idx, r));
    }
}

/// When no two results share a key, any result carrying the key determines
/// the recorded choices, and a key no result carries records none.
pub proof fn lemma_choices_for_unique(sets: Seq<PageChoices>, page_id: i64)
    requires
        distinct_keys(sets),
    ensures
        forall|k: int|
            0 <= k < sets.len() && (#[trigger] sets[k]).page_id == page_id ==> choices_for(
                sets,
                page_id,
            ) == sets[k].choices@,
        (forall|k: int| 0 <= k < sets.len() ==> (#[trigger] sets[k]).page_id != page_id)
            ==> choices_for(sets, page_id) == Seq::<Choice>::empty(),
    decreases sets.len(),
{
    if sets.len() == 0 {
    } else if sets[0].page_id == page_id {
        assert forall|k: int|
            0 <= k < sets.len() && (#[trigger] sets[k]).page_id == page_id implies choices_for(
            sets,
            page_id,
        ) == sets[k].choices@ by {
            if k != 0 {
                assert(sets[0].page_id != sets[k].page_id);
            }
        }
    } else {
        let sub = sets.drop_first();
        lemma_choices_for_unique(sub, page_id);
        assert(forall|k: int| 0 <= k < sub.len() ==> #[trigger] sub[k] == sets[k + 1]);
        assert forall|k: int|
            0 <= k < sets.len() && (#[trigger] sets[k]).page_id == page_id implies choices_for(
            sets,
            page_id,
        ) == sets[k].choices@ by {
            assert(k != 0);
            assert(sub[k - 1] == sets[k]);
        }
        if forall|k: int| 0 <= k < sets.len() ==> (#[trigger] sets[k]).page_id != page_id {
            assert(forall|k: int| 0 <= k < sub.len() ==> (#[trigger] sub[k]).page_id != page_id);
        }
    }
}

/// Two sequences with the same contents contain the same elements.
proof fn lemma_transfer_contains<T>(a: Seq<T>, b: Seq<T>, x: T)
    requires
        a.to_multiset() == b.to_multiset(),
        a.contains(x),
    ensures
        b.contains(x),
{
    broadcast use vstd::seq_lib::group_to_multiset_ensures;

    assert(a.to_multiset().count(x) > 0);
}

/// A copy of one choice, equal to the original.
fn clone_choice(c: &Choice) -> (r: Choice)
    ensures
        r == *c,
{
    Choice { id: c.id, page_id: c.page_id, text: c.text.clone(), target_page: c.target_page }
}

/// A copy of a vector of choices, equal to the original.
fn clone_choices(v: &Vec<Choice>) -> (r: Vec<Choice>)
    ensures
        r@ == v@,
{
    let mut out: Vec<Choice> = Vec::new();
    let n = v.len();
    for k in 0..n
        invariant
            n == v@.len(),
            out@ == v@.take(k as int),
    {
        out.push(clone_choice(&v[k]));
        proof {
            assert(out@ =~= v@.take(k + 1));
        }
    }
    proof {
        assert(v@.take(n as int) =~= v@);
    }
    out
}

/// The choices recorded for `page_id` among the fetched results:
/// `choices_for`, executably.
fn find_choices(sets: &Vec<PageChoices>, page_id: i64) -> (r: Vec<Choice>)
    ensures
        r@ == choices_for(sets@, page_id),
{
    let n = sets.len();
    proof {
        assert(sets@.skip(0) =~= sets@);
    }
    for k in 0..n
        invariant
            n == sets@.len(),
            choices_for(sets@, page_id) == choices_for(sets@.skip(k as int), page_id),
    {
        proof {
            assert(sets@.skip(k as int)[0] == sets@[k as int]);
        }
        if sets[k].page_id == page_id {
            return clone_choices(&sets[k].choices);
        }
        proof {
            assert(sets@.skip(k as int).drop_first() =~= sets@.skip(k + 1));
        }
    }
    Vec::new()
}

/// Inserts `row` into a vector sorted ascending by id, keeping it sorted.
fn insert_row_by_id(v: &mut Vec<PageRow>, row: PageRow)
    requires
        sorted_by_id(old(v)@),
    ensures
        final(v)@ == insert_by_id(old(v)@, row),
        sorted_by_id(final(v)@),
{
    let ghost gr = row;
    let n = v.len();
    let mut idx: usize = 0;
    while idx < n && v[idx].id <= row.id
        invariant
            n == v@.len(),
            idx <= n,
            forall|j: int| 0 <= j < idx ==> (#[trigger] v@[j]).id <= row.id,
        decreases n - idx,
    {
        idx += 1;
    }
    proof {
        lemma_insert_by_id_at(v@, gr, idx as int);
        lemma_insert_by_id_props(v@, gr);
    }
    v.insert(idx, row);
}

/// Builds the hydrated story from its row, its page rows, and one fetched
/// choice result per page: every page gets the choices keyed to its id, and
/// the pages are ordered ascending by id, whatever order either input came
/// in.
pub fn assemble_story(
    id: i64,
    title: String,
    start_page: Option<i64>,
    page_rows: Vec<PageRow>,
    choice_sets: Vec<PageChoices>,
) -> (s: Story)
    ensures
        s.id == id,
        s.title == title,
        s.start_page == start_page,
        assembled_all(s.pages@, sort_by_id(page_rows@), choice_sets@),
        sorted_by_id_pages(s.pages@),
        s.pages@.len() == page_rows@.len(),
{
    proof {
        lemma_sort_by_id_props(page_rows@);
    }
    let mut sorted: Vec<PageRow> = Vec::new();
    let n = page_rows.len();
    for k in 0..n
        invariant
            n == page_rows@.len(),
            sorted@ == sort_by_id(page_rows@.take(k as int)),
            sorted_by_id(sorted@),
    {
        proof {
            assert(page_rows@.take(k + 1).drop_last() =~= page_rows@.take(k as int));
            assert(page_rows@.take(k + 1).last() == page_rows@[k as int]);
        }
        let row = PageRow {
            id: page_rows[k].id,
            story_id: page_rows[k].story_id,
            name: page_rows[k].name.clone(),
            body: page_rows[k].body.clone(),
        };
        proof {
            assert(row == page_rows@[k as int]);
        }
        insert_row_by_id(&mut sorted, row);
        proof {
            lemma_insert_by_id_props(sort_by_id(page_rows@.take(k as int)), page_rows@[k as int]);
        }
    }
    proof {
        assert(page_rows@.take(n as int) =~= page_rows@);
    }
    let mut pages: Vec<Page> = Vec::new();
    let m = sorted.len();
    for k in 0..m
        invariant
            m == sorted@.len(),
            sorted@ == sort_by_id(page_rows@),
            pages@.len() == k,
            forall|i: int|
                0 <= i < k ==> assembled(#[trigger] pages@[i], sorted@[i], choice_sets@),
    {
        let options = find_choices(&choice_sets, sorted[k].id);
        let p = Page {
            id: sorted[k].id,
            story_id: sorted[k].story_id,
            name: sorted[k].name.clone(),
            body: sorted[k].body.clone(),
            options,
        };
        proof {
            assert(assembled(p, sorted@[k as int], choice_sets@));
        }
        pages.push(p);
    }
    proof {
        assert forall|i: int, j: int|
            #![trigger pages@[i], pages@[j]]
            0 <= i < j < pages@.len() implies pages@[i].id <= pages@[j].id by {
            assert(sorted@[i].id <= sorted@[j].id);
        }
    }
    Story { id, title, start_page, pages }
}

/// Strictly ascending by id: no two rows share an id.
pub open spec fn strictly_sorted_by_id(s: Seq<PageRow>) -> bool {
    forall|i: int, j: int| #![trigger s[i], s[j]] 0 <= i < j < s.len() ==> s[i].id < s[j].id
}

/// A sorted sequence with the same contents as a strictly sorted one is
/// that sequence: sorting any fetch order of rows with unique ids can end
/// one way only.
pub proof fn lemma_sorted_permutation_unique(a: Seq<PageRow>, b: Seq<PageRow>)
    requires
        a.to_multiset() == b.to_multiset(),
        sorted_by_id(a),
        strictly_sorted_by_id(b),
    ensures
        a == b,
    decreases b.len(),
{
    broadcast use vstd::seq_lib::group_to_multiset_ensures;

    assert(a.len() == a.to_multiset().len());
    assert(b.len() == b.to_multiset().len());
    assert(a.len() == b.len());
    if b.len() == 0 {
        assert(a =~= b);
    } else {
        assert(a.contains(a.last()));
        lemma_transfer_contains(a, b, a.last());
        let k = choose|k: int| 0 <= k < b.len() && b[k] == a.last();
        assert(b.contains(b.last()));
        lemma_transfer_contains(b, a, b.last());
        let m = choose|m: int| 0 <= m < a.len() && a[m] == b.last();
        assert(a[m].id <= a.last().id) by {
            if m < a.len() - 1 {
                assert(a[m].id <= a[a.len() - 1].id);
            }
        }
        assert(b[k].id <= b.last().id) by {
            if k < b.len() - 1 {
                assert(b[k].id <= b[b.len() - 1].id);
            }
        }
        assert(a.last().id == b.last().id);
        assert(k == b.len() - 1) by {
            if k < b.len() - 1 {
                assert(b[k].id < b[b.len() - 1].id);
            }
        }
        assert(a.last() == b.last());
        let a1 = a.drop_last();
        let b1 = b.drop_last();
        assert(a1 =~= a.remove(a.len() - 1));
        assert(b1 =~= b.remove(b.len() - 1));
        assert(a1.to_multiset() == a.to_multiset().remove(a.last()));
        assert(b1.to_multiset() == b.to_multiset().remove(b.last()));
        assert(sorted_by_id(a1)) by {
            assert forall|i: int, j: int|
                #![trigger a1[i], a1[j]]
                0 <= i < j < a1.len() implies a1[i].id <= a1[j].id by {
                assert(a1[i] == a[i]);
                assert(a1[j] == a[j]);
            }
        }
        assert(strictly_sorted_by_id(b1)) by {
            assert forall|i: int, j: int|
                #![trigger b1[i], b1[j]]
                0 <= i < j < b1.len() implies b1[i].id < b1[j].id by {
                assert(b1[i] == b[i]);
                assert(b1[j] == b[j]);
            }
        }
        lemma_sorted_permutation_unique(a1, b1);
        assert forall|i: int| 0 <= i < a.len() implies a[i] == b[i] by {
            if i < a.len() - 1 {
                assert(a[i] == a1[i]);
                assert(b[i] == b1[i]);
            }
        }
        assert(a =~= b);
    }
}

/// The fan-out-then-gather read computes the model's read. Take a
/// well-formed store, the page rows of one story fetched in any order, and
/// one keyed choice result per page recording — in whatever completion
/// order — exactly the choices the store holds for that page. Then
/// whatever satisfies `assemble_story`'s contract on those pieces is
/// pointwise what `Store::get_story` promises for that story: same rows,
/// ascending by id, same choices under each.
pub proof fn lemma_assemble_matches_store(
    st: crate::store::Store,
    story_id: i64,
    rows: Seq<PageRow>,
    sets: Seq<PageChoices>,
    ps: Seq<Page>,
)
    requires
        st.wf(),
        rows.to_multiset() == crate::store::pages_of(st.pages@, story_id).to_multiset(),
        forall|k: int|
            0 <= k < rows.len() ==> choices_for(sets, (#[trigger] rows[k]).id)
                == crate::store::choices_of(st.choices@, rows[k].id),
        assembled_all(ps, sort_by_id(rows), sets),
    ensures
        crate::store::hydrated_all(ps, crate::store::pages_of(st.pages@, story_id), st.choices@),
{
    let table = crate::store::pages_of(st.pages@, story_id);
    lemma_sort_by_id_props(rows);
    crate::store::lemma_pages_of_sorted(st.pages@, story_id);
    lemma_sorted_permutation_unique(sort_by_id(rows), table);
    assert forall|i: int|
        0 <= i < ps.len() implies crate::store::hydrated(
        #[trigger] ps[i],
        table[i],
        st.choices@,
    ) by {
        assert(assembled(ps[i], table[i], sets));
        assert(table.contains(table[i]));
        lemma_transfer_contains(table, rows, table[i]);
        let k = choose|k: int| 0 <= k < rows.len() && rows[k] == table[i];
        assert(choices_for(sets, rows[k].id) == crate::store::choices_of(
            st.choices@,
            rows[k].id,
        ));
    }
}

/// Attaching choices by key does not depend on the order the per-page
/// results arrived in: any reordering of the results — what a different
/// completion order of the concurrent fetches would produce — records the
/// same choices for every page. Together with `assemble_story`'s contract,
/// which pins the assembled pages to the sorted rows and to `choices_for`,
/// the assembled story is deterministic under fetch timing.
pub proof fn lemma_assembly_deterministic(a: Seq<PageChoices>, b: Seq<PageChoices>)
    requires
        a.to_multiset() == b.to_multiset(),
        distinct_keys(a),
    ensures
        forall|page_id: i64| choices_for(a, page_id) == choices_for(b, page_id),
{
    broadcast use vstd::seq_lib::group_to_multiset_ensures;

    assert(a.no_duplicates()) by {
        assert forall|i: int, j: int|
            0 <= i < a.len() && 0 <= j < a.len() && i != j implies a[i] != a[j] by {
            if i < j {
                assert(a[i].page_id != a[j].page_id);
            } else {
                assert(a[j].page_id != a[i].page_id);
            }
        }
    }
    a.lemma_multiset_has_no_duplicates();
    b.lemma_multiset_has_no_duplicates_conv();
    assert(distinct_keys(b)) by {
        assert forall|i: int, j: int|
            #![trigger b[i], b[j]]
            0 <= i < j < b.len() implies b[i].page_id != b[j].page_id by {
            if b[i].page_id == b[j].page_id {
                assert(b[i] != b[j]);
                assert(b.contains(b[i]));
                assert(b.contains(b[j]));
                lemma_transfer_contains(b, a, b[i]);
                lemma_transfer_contains(b, a, b[j]);
                let p = choose|p: int| 0 <= p < a.len() && a[p] == b[i];
                let q = choose|q: int| 0 <= q < a.len() && a[q] == b[j];
                if p < q {
                    assert(a[p].page_id != a[q].page_id);
                } else {
                    assert(a[q].page_id != a[p].page_id);
                }
            }
        }
    }
    assert forall|page_id: i64| choices_for(a, page_id) == choices_for(b, page_id) by {
        lemma_choices_for_unique(a, page_id);
        lemma_choices_for_unique(b, page_id);
        if exists|k: int| 0 <= k < a.len() && (#[trigger] a[k]).page_id == page_id {
            let k = choose|k: int| 0 <= k < a.len() && (#[trigger] a[k]).page_id == page_id;
            assert(a.contains(a[k]));
            lemma_transfer_contains(a, b, a[k]);
            let m = choose|m: int| 0 <= m < b.len() && b[m] == a[k];
            assert(choices_for(b, page_id) == a[k].choices@);
        } else {
            assert forall|m: int|
                0 <= m < b.len() implies (#[trigger] b[m]).page_id != page_id by {
                if b[m].page_id == page_id {
                    assert(b.contains(b[m]));
                    lemma_transfer_contains(b, a, b[m]);
                    let p = choose|p: int| 0 <= p < a.len() && a[p] == b[m];
                    assert(a[p].page_id == page_id);
                }
            }
        }
    }
}

} // verus!
