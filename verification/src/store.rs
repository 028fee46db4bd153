//! Verified semantics of the persistence layer.
//!
//! `Store` models the three tables — `stories`, `pages`, `choices` — as
//! sequences of rows in insertion order, with ids handed out by ascending
//! counters exactly as a relational engine's generated keys are. Every
//! operation of the layer is defined here with a full contract; a storage
//! adapter that executes the corresponding statements against a real engine
//! is answerable to these contracts.

use vstd::prelude::*;

use crate::models::{Choice, DbError, Page, PagePatch, PageRow, Story, StoryId, StoryListing,
    StoryRow};

verus! {

/// The rows of `pages` that belong to story `story_id`, in table order.
pub open spec fn pages_of(pages: Seq<PageRow>, story_id: i64) -> Seq<PageRow>
    decreases pages.len(),
{
    if pages.len() == 0 {
        Seq::empty()
    } else if pages.last().story_id == story_id {
        pages_of(pages.drop_last(), story_id).push(pages.last())
    } else {
        pages_of(pages.drop_last(), story_id)
    }
}

/// The rows of `choices` that belong to page `page_id`, in table order.
pub open spec fn choices_of(choices: Seq<Choice>, page_id: i64) -> Seq<Choice>
    decreases choices.len(),
{
    if choices.len() == 0 {
        Seq::empty()
    } else if choices.last().page_id == page_id {
        choices_of(choices.drop_last(), page_id).push(choices.last())
    } else {
        choices_of(choices.drop_last(), page_id)
    }
}

/// A page row rewritten by a patch: a present field replaces the column, an
/// absent field leaves it untouched; id and owning story never change.
pub open spec fn patched_row(row: PageRow, patch: PagePatch) -> PageRow {
    PageRow {
        id: row.id,
        story_id: row.story_id,
        name: if patch.name is Some {
            patch.name->Some_0
        } else {
            row.name
        },
        body: if patch.body is Some {
            patch.body->Some_0
        } else {
            row.body
        },
    }
}

/// A patch that names no field at all.
pub open spec fn empty_patch(patch: PagePatch) -> bool {
    patch.name is None && patch.body is None
}

/// `p` is row `row` hydrated: the row's fields, with the choices owned by
/// the row's id attached in table order.
pub open spec fn hydrated(p: Page, row: PageRow, choices: Seq<Choice>) -> bool {
    &&& p.id == row.id
    &&& p.story_id == row.story_id
    &&& p.name == row.name
    &&& p.body == row.body
    &&& p.options@ == choices_of(choices, row.id)
}

/// `ps` hydrates `rows` pointwise, in the same order.
pub open spec fn hydrated_all(ps: Seq<Page>, rows: Seq<PageRow>, choices: Seq<Choice>) -> bool {
    &&& ps.len() == rows.len()
    &&& forall|i: int| 0 <= i < ps.len() ==> hydrated(#[trigger] ps[i], rows[i], choices)
}

/// In a table strictly sorted by id — as every table of a well-formed
/// store is — a story's pages are themselves strictly ascending by id, and
/// all drawn from the table. So `get_story` returns the same page order,
/// ascending by id, on every call.
pub proof fn lemma_pages_of_sorted(pages: Seq<PageRow>, story_id: i64)
    requires
        forall|i: int, j: int|
            #![trigger pages[i], pages[j]]
            0 <= i < j < pages.len() ==> pages[i].id < pages[j].id,
    ensures
        forall|i: int, j: int|
            #![trigger pages_of(pages, story_id)[i], pages_of(pages, story_id)[j]]
            0 <= i < j < pages_of(pages, story_id).len() ==> pages_of(pages, story_id)[i].id
                < pages_of(pages, story_id)[j].id,
        forall|k: int|
            0 <= k < pages_of(pages, story_id).len() ==> pages.contains(
                #[trigger] pages_of(pages, story_id)[k],
            ),
    decreases pages.len(),
{
    if pages.len() > 0 {
        let sub = pages.drop_last();
        lemma_pages_of_sorted(sub, story_id);
        let out = pages_of(pages, story_id);
        let prev = pages_of(sub, story_id);
        assert forall|k: int|
            0 <= k < prev.len() implies pages.contains(prev[k]) by {
            assert(sub.contains(prev[k]));
            let w = choose|w: int| 0 <= w < sub.len() && sub[w] == prev[k];
            assert(pages[w] == prev[k]);
        }
        if pages.last().story_id == story_id {
            assert(pages[pages.len() - 1] == pages.last());
            assert forall|i: int, j: int|
                #![trigger out[i], out[j]]
                0 <= i < j < out.len() implies out[i].id < out[j].id by {
                if j < prev.len() {
                    assert(prev[i].id < prev[j].id);
                } else {
                    assert(out[j] == pages.last());
                    assert(out[i] == prev[i]);
                    assert(sub.contains(prev[i]));
                    let w = choose|w: int| 0 <= w < sub.len() && sub[w] == prev[i];
                    assert(pages[w] == prev[i]);
                    assert(pages[w].id < pages[pages.len() - 1].id);
                }
            }
        }
    }
}

/// A story id no page row references owns no pages.
pub proof fn lemma_pages_of_none(pages: Seq<PageRow>, story_id: i64)
    requires
        forall|i: int| 0 <= i < pages.len() ==> (#[trigger] pages[i]).story_id != story_id,
    ensures
        pages_of(pages, story_id) == Seq::<PageRow>::empty(),
    decreases pages.len(),
{
    if pages.len() > 0 {
        lemma_pages_of_none(pages.drop_last(), story_id);
    }
}

/// A page id no choice row references owns no choices.
pub proof fn lemma_choices_of_none(choices: Seq<Choice>, page_id: i64)
    requires
        forall|i: int| 0 <= i < choices.len() ==> (#[trigger] choices[i]).page_id != page_id,
    ensures
        choices_of(choices, page_id) == Seq::<Choice>::empty(),
    decreases choices.len(),
{
    if choices.len() > 0 {
        lemma_choices_of_none(choices.drop_last(), page_id);
    }
}

/// The round trip through the `choices` table: when a page owns no choices
/// yet and a batch of choices is then inserted for it, the page owns
/// exactly that batch, in insertion order — so fetching the page returns
/// it, text and targets intact, by `get_page`'s contract.
pub proof fn lemma_choice_roundtrip(pre: Seq<Choice>, added: Seq<Choice>, page_id: i64)
    requires
        forall|i: int| 0 <= i < pre.len() ==> (#[trigger] pre[i]).page_id != page_id,
        forall|i: int| 0 <= i < added.len() ==> (#[trigger] added[i]).page_id == page_id,
    ensures
        choices_of(pre + added, page_id) == added,
    decreases added.len(),
{
    if added.len() == 0 {
        assert(pre + added =~= pre);
        lemma_choices_of_none(pre, page_id);
        assert(choices_of(pre + added, page_id) =~= added);
    } else {
        let whole = pre + added;
        assert(whole.last() == added.last());
        assert(whole.drop_last() =~= pre + added.drop_last());
        lemma_choice_roundtrip(pre, added.drop_last(), page_id);
        assert(choices_of(whole, page_id) == added.drop_last().push(added.last()));
        assert(added.drop_last().push(added.last()) =~= added);
    }
}

/// A story fetched right after its creation holds exactly its start page,
/// and that page holds no choices. `pre` and `post` are the store before
/// and after the creation, exactly as `add_story`'s contract describes;
/// the two quantified premises say that nothing in the old store already
/// referenced the ids about to be generated, which holds whenever every
/// foreign key in the old store references an id some row has carried.
pub proof fn lemma_fresh_story_hydration(pre: Store, post: Store, sid: i64, pid: i64)
    requires
        post.pages@.len() == pre.pages@.len() + 1,
        post.pages@.drop_last() == pre.pages@,
        post.pages@.last().id == pid,
        post.pages@.last().story_id == sid,
        post.choices@ == pre.choices@,
        forall|i: int| 0 <= i < pre.pages@.len() ==> (#[trigger] pre.pages@[i]).story_id != sid,
        forall|i: int| 0 <= i < pre.choices@.len() ==> (#[trigger] pre.choices@[i]).page_id != pid,
    ensures
        pages_of(post.pages@, sid) == seq![post.pages@.last()],
        choices_of(post.choices@, pid) == Seq::<Choice>::empty(),
{
    lemma_pages_of_none(pre.pages@, sid);
    lemma_choices_of_none(pre.choices@, pid);
    assert(post.pages@.drop_last() == pre.pages@);
    assert(pages_of(post.pages@, sid) == pages_of(pre.pages@, sid).push(post.pages@.last()));
    assert(pages_of(post.pages@, sid) =~= seq![post.pages@.last()]);
}

/// The model of the relational store: three tables in insertion order and
/// the next generated id of each.
pub struct Store {
    pub stories: Vec<StoryRow>,
    pub pages: Vec<PageRow>,
    pub choices: Vec<Choice>,
    pub next_story_id: i64,
    pub next_page_id: i64,
    pub next_choice_id: i64,
}

impl Store {
    /// Well-formedness: ids are generated ascending from 1, so every table
    /// is strictly sorted by id (hence ids are unique) and every id is below
    /// the table's counter.
    pub open spec fn wf(self) -> bool {
        &&& 1 <= self.next_story_id
        &&& 1 <= self.next_page_id
        &&& 1 <= self.next_choice_id
        &&& forall|i: int, j: int|
            #![trigger self.stories@[i], self.stories@[j]]
            0 <= i < j < self.stories@.len() ==> self.stories@[i].id < self.stories@[j].id
        &&& forall|i: int|
            0 <= i < self.stories@.len() ==> 1 <= (#[trigger] self.stories@[i]).id
                < self.next_story_id
        &&& forall|i: int, j: int|
            #![trigger self.pages@[i], self.pages@[j]]
            0 <= i < j < self.pages@.len() ==> self.pages@[i].id < self.pages@[j].id
        &&& forall|i: int|
            0 <= i < self.pages@.len() ==> 1 <= (#[trigger] self.pages@[i]).id < self.next_page_id
        &&& forall|i: int, j: int|
            #![trigger self.choices@[i], self.choices@[j]]
            0 <= i < j < self.choices@.len() ==> self.choices@[i].id < self.choices@[j].id
        &&& forall|i: int|
            0 <= i < self.choices@.len() ==> 1 <= (#[trigger] self.choices@[i]).id
                < self.next_choice_id
    }

    /// Some story row carries this id.
    pub open spec fn has_story(self, id: i64) -> bool {
        exists|i: int| 0 <= i < self.stories@.len() && (#[trigger] self.stories@[i]).id == id
    }

    /// Some page row carries this id.
    pub open spec fn has_page(self, id: i64) -> bool {
        exists|i: int| 0 <= i < self.pages@.len() && (#[trigger] self.pages@[i]).id == id
    }

    /// A fresh store: three empty tables, each counter at 1.
    pub fn new() -> (s: Store)
        ensures
            s.wf(),
            s.stories@ == Seq::<StoryRow>::empty(),
            s.pages@ == Seq::<PageRow>::empty(),
            s.choices@ == Seq::<Choice>::empty(),
            s.next_story_id == 1,
            s.next_page_id == 1,
            s.next_choice_id == 1,
    {
        Store {
            stories: Vec::new(),
            pages: Vec::new(),
            choices: Vec::new(),
            next_story_id: 1,
            next_page_id: 1,
            next_choice_id: 1,
        }
    }

    /// One listing per story, in table order, carrying id and title.
    pub fn get_story_list(&self) -> (r: Vec<StoryListing>)
        ensures
            r@.len() == self.stories@.len(),
            forall|i: int|
                0 <= i < r@.len() ==> (#[trigger] r@[i]).id == self.stories@[i].id
                    && r@[i].title == self.stories@[i].title,
    {
        let mut out: Vec<StoryListing> = Vec::new();
        let n = self.stories.len();
        for k in 0..n
            invariant
                n == self.stories@.len(),
                out@.len() == k,
                forall|i: int|
                    0 <= i < k ==> (#[trigger] out@[i]).id == self.stories@[i].id
                        && out@[i].title == self.stories@[i].title,
        {
            let listing = StoryListing {
                id: self.stories[k].id,
                title: self.stories[k].title.clone(),
            };
            out.push(listing);
        }
        out
    }

    /// Inserts a page with the given name and an empty body under `story_id`
    /// and returns its generated id. Whether `story_id` names an existing
    /// story is not checked at this layer.
    pub fn create_page(&mut self, story_id: StoryId, name: String) -> (pid: i64)
        requires
            old(self).wf(),
            old(self).next_page_id < i64::MAX,
        ensures
            final(self).wf(),
            pid == old(self).next_page_id,
            final(self).pages@.len() == old(self).pages@.len() + 1,
            final(self).pages@.drop_last() == old(self).pages@,
            final(self).pages@.last().id == pid,
            final(self).pages@.last().story_id == story_id,
            final(self).pages@.last().name == name,
            final(self).pages@.last().body@ == Seq::<char>::empty(),
            final(self).stories@ == old(self).stories@,
            final(self).choices@ == old(self).choices@,
            final(self).next_story_id == old(self).next_story_id,
            final(self).next_page_id == old(self).next_page_id + 1,
            final(self).next_choice_id == old(self).next_choice_id,
    {
        let pid = self.next_page_id;
        let row = PageRow { id: pid, story_id, name, body: String::new() };
        self.pages.push(row);
        self.next_page_id = pid + 1;
        proof {
            assert(self.pages@.drop_last() =~= old(self).pages@);
        }
        pid
    }

    /// Creates a story with the given title together with its mandatory
    /// start page — one page named "Start" with an empty body — and records
    /// that page's id as the story's start page. Returns the story's id.
    /// The storage adapter must perform these writes in one transaction.
    pub fn add_story(&mut self, title: String) -> (sid: StoryId)
        requires
            old(self).wf(),
            old(self).next_story_id < i64::MAX,
            old(self).next_page_id < i64::MAX,
        ensures
            final(self).wf(),
            sid == old(self).next_story_id,
            final(self).stories@.len() == old(self).stories@.len() + 1,
            final(self).stories@.drop_last() == old(self).stories@,
            final(self).stories@.last().id == sid,
            final(self).stories@.last().title == title,
            final(self).stories@.last().start_page == Some(old(self).next_page_id),
            final(self).pages@.len() == old(self).pages@.len() + 1,
            final(self).pages@.drop_last() == old(self).pages@,
            final(self).pages@.last().id == old(self).next_page_id,
            final(self).pages@.last().story_id == sid,
            final(self).pages@.last().name@ == "Start"@,
            final(self).pages@.last().body@ == Seq::<char>::empty(),
            final(self).choices@ == old(self).choices@,
            final(self).next_story_id == old(self).next_story_id + 1,
            final(self).next_page_id == old(self).next_page_id + 1,
            final(self).next_choice_id == old(self).next_choice_id,
    {
        let sid = self.next_story_id;
        let pid = self.next_page_id;
        let row = StoryRow { id: sid, title, start_page: Some(pid) };
        self.stories.push(row);
        self.next_story_id = sid + 1;
        proof {
            assert(self.stories@.drop_last() =~= old(self).stories@);
        }
        let start_name = "Start".to_owned();
        let created = self.create_page(sid, start_name);
        proof {
            assert(created == pid);
        }
        sid
    }

    /// Inserts a choice under `page_id`, labeled `text`, leading to
    /// `target_page`, and returns its generated id. The read surface of the
    /// layer never creates choices; this operation closes that gap so the
    /// `choices` table is reachable at all. Whether `page_id` or
    /// `target_page` name existing pages is not checked at this layer.
    pub fn create_choice(&mut self, page_id: i64, text: String, target_page: i64) -> (cid: i64)
        requires
            old(self).wf(),
            old(self).next_choice_id < i64::MAX,
        ensures
            final(self).wf(),
            cid == old(self).next_choice_id,
            final(self).choices@.len() == old(self).choices@.len() + 1,
            final(self).choices@.drop_last() == old(self).choices@,
            final(self).choices@.last().id == cid,
            final(self).choices@.last().page_id == page_id,
            final(self).choices@.last().text == text,
            final(self).choices@.last().target_page == target_page,
            final(self).stories@ == old(self).stories@,
            final(self).pages@ == old(self).pages@,
            final(self).next_story_id == old(self).next_story_id,
            final(self).next_page_id == old(self).next_page_id,
            final(self).next_choice_id == old(self).next_choice_id + 1,
    {
        let cid = self.next_choice_id;
        let row = Choice { id: cid, page_id, text, target_page };
        self.choices.push(row);
        self.next_choice_id = cid + 1;
        proof {
            assert(self.choices@.drop_last() =~= old(self).choices@);
        }
        cid
    }

    /// Index of the story row carrying `id`, if any.
    fn find_story(&self, id: i64) -> (r: Option<usize>)
        ensures
            match r {
                Some(i) => i < self.stories@.len() && self.stories@[i as int].id == id,
                None => !self.has_story(id),
            },
    {
        let n = self.stories.len();
        for k in 0..n
            invariant
                n == self.stories@.len(),
                forall|i: int| 0 <= i < k ==> (#[trigger] self.stories@[i]).id != id,
        {
            if self.stories[k].id == id {
                return Some(k);
            }
        }
        None
    }

    /// Index of the page row carrying `id`, if any.
    fn find_page(&self, id: i64) -> (r: Option<usize>)
        ensures
            match r {
                Some(i) => i < self.pages@.len() && self.pages@[i as int].id == id,
                None => !self.has_page(id),
            },
    {
        let n = self.pages.len();
        for k in 0..n
            invariant
                n == self.pages@.len(),
                forall|i: int| 0 <= i < k ==> (#[trigger] self.pages@[i]).id != id,
        {
            if self.pages[k].id == id {
                return Some(k);
            }
        }
        None
    }

    /// The choices owned by page `page_id`, in table order.
    pub fn collect_choices(&self, page_id: i64) -> (r: Vec<Choice>)
        ensures
            r@ == choices_of(self.choices@, page_id),
    {
        let mut out: Vec<Choice> = Vec::new();
        let n = self.choices.len();
        for k in 0..n
            invariant
                n == self.choices@.len(),
                out@ == choices_of(self.choices@.take(k as int), page_id),
        {
            proof {
                assert(self.choices@.take(k + 1).drop_last() =~= self.choices@.take(k as int));
                assert(self.choices@.take(k + 1).last() == self.choices@[k as int]);
            }
            if self.choices[k].page_id == page_id {
                let c = Choice {
                    id: self.choices[k].id,
                    page_id: self.choices[k].page_id,
                    text: self.choices[k].text.clone(),
                    target_page: self.choices[k].target_page,
                };
                proof {
                    assert(c == self.choices@[k as int]);
                }
                out.push(c);
            }
        }
        proof {
            assert(self.choices@.take(n as int) =~= self.choices@);
        }
        out
    }

    /// Fetches the page carrying `id` together with all of its choices;
    /// reports `NotFound` if no page row carries that id.
    pub fn get_page(&self, id: i64) -> (r: Result<Page, DbError>)
        requires
            self.wf(),
        ensures
            r is Ok <==> self.has_page(id),
            r matches Err(e) ==> e == DbError::NotFound,
            r matches Ok(p) ==> p.id == id && p.options@ == choices_of(self.choices@, id)
                && forall|i: int|
                    0 <= i < self.pages@.len() && (#[trigger] self.pages@[i]).id == id
                        ==> p.story_id == self.pages@[i].story_id && p.name == self.pages@[i].name
                            && p.body == self.pages@[i].body,
    {
        match self.find_page(id) {
            None => Err(DbError::NotFound),
            Some(idx) => {
                let options = self.collect_choices(id);
                let p = Page {
                    id: self.pages[idx].id,
                    story_id: self.pages[idx].story_id,
                    name: self.pages[idx].name.clone(),
                    body: self.pages[idx].body.clone(),
                    options,
                };
                proof {
                    assert forall|i: int|
                        0 <= i < self.pages@.len() && (#[trigger] self.pages@[i]).id == id
                            implies i == idx as int by {
                        if i != idx as int {
                            if i < idx as int {
                                assert(self.pages@[i].id < self.pages@[idx as int].id);
                            } else {
                                assert(self.pages@[idx as int].id < self.pages@[i].id);
                            }
                        }
                    }
                }
                Ok(p)
            },
        }
    }

    /// Applies a partial update to the page carrying `id`. A patch with no
    /// fields at all is rejected as `InvalidArgument`; a patch aimed at an
    /// absent page reports `NotFound`; otherwise exactly the supplied fields
    /// of that one row are rewritten and every other row is untouched.
    pub fn patch_page(&mut self, id: i64, patch: &PagePatch) -> (r: Result<(), DbError>)
        requires
            old(self).wf(),
        ensures
            final(self).wf(),
            empty_patch(*patch) ==> r == Err::<(), DbError>(DbError::InvalidArgument)
                && *final(self) == *old(self),
            !empty_patch(*patch) && !old(self).has_page(id) ==> r == Err::<(), DbError>(
                DbError::NotFound,
            ) && *final(self) == *old(self),
            !empty_patch(*patch) && old(self).has_page(id) ==> r == Ok::<(), DbError>(())
                && final(self).pages@.len() == old(self).pages@.len()
                && (forall|i: int|
                    0 <= i < old(self).pages@.len() ==> #[trigger] final(self).pages@[i] == (
                    if old(self).pages@[i].id == id {
                        patched_row(old(self).pages@[i], *patch)
                    } else {
                        old(self).pages@[i]
                    })),
            final(self).stories@ == old(self).stories@,
            final(self).choices@ == old(self).choices@,
            final(self).next_story_id == old(self).next_story_id,
            final(self).next_page_id == old(self).next_page_id,
            final(self).next_choice_id == old(self).next_choice_id,
    {
        if patch.name.is_none() && patch.body.is_none() {
            return Err(DbError::InvalidArgument);
        }
        match self.find_page(id) {
            None => Err(DbError::NotFound),
            Some(idx) => {
                let name = match &patch.name {
                    Some(n) => n.clone(),
                    None => self.pages[idx].name.clone(),
                };
                let body = match &patch.body {
                    Some(b) => b.clone(),
                    None => self.pages[idx].body.clone(),
                };
                let row = PageRow {
                    id: self.pages[idx].id,
                    story_id: self.pages[idx].story_id,
                    name,
                    body,
                };
                proof {
                    assert(row == patched_row(old(self).pages@[idx as int], *patch));
                }
                self.pages[idx] = row;
                proof {
                    assert forall|i: int|
                        0 <= i < old(self).pages@.len() && i != idx as int
                            implies (#[trigger] old(self).pages@[i]).id != id by {
                        if i < idx as int {
                            assert(old(self).pages@[i].id < old(self).pages@[idx as int].id);
                        } else {
                            assert(old(self).pages@[idx as int].id < old(self).pages@[i].id);
                        }
                    }
                }
                Ok(())
            },
        }
    }

    /// Fetches the story carrying `id` fully hydrated: its own fields, its
    /// pages in ascending id order — which, ids being generated ascending,
    /// is table order — and under each page that page's choices in table
    /// order. Reports `NotFound` if no story row carries the id.
    pub fn get_story(&self, id: StoryId) -> (r: Result<Story, DbError>)
        requires
            self.wf(),
        ensures
            r is Ok <==> self.has_story(id),
            r matches Err(e) ==> e == DbError::NotFound,
            r matches Ok(s) ==> s.id == id && hydrated_all(
                s.pages@,
                pages_of(self.pages@, id),
                self.choices@,
            ) && (forall|i: int, j: int|
                #![trigger s.pages@[i], s.pages@[j]]
                0 <= i < j < s.pages@.len() ==> s.pages@[i].id < s.pages@[j].id) && forall|i: int|
                0 <= i < self.stories@.len() && (#[trigger] self.stories@[i]).id == id
                    ==> s.title == self.stories@[i].title
                        && s.start_page == self.stories@[i].start_page,
    {
        match self.find_story(id) {
            None => Err(DbError::NotFound),
            Some(idx) => {
                let mut pages: Vec<Page> = Vec::new();
                let n = self.pages.len();
                for k in 0..n
                    invariant
                        n == self.pages@.len(),
                        hydrated_all(pages@, pages_of(self.pages@.take(k as int), id),
                            self.choices@),
                {
                    proof {
                        assert(self.pages@.take(k + 1).drop_last() =~= self.pages@.take(k as int));
                        assert(self.pages@.take(k + 1).last() == self.pages@[k as int]);
                    }
                    if self.pages[k].story_id == id {
                        let options = self.collect_choices(self.pages[k].id);
                        let p = Page {
                            id: self.pages[k].id,
                            story_id: self.pages[k].story_id,
                            name: self.pages[k].name.clone(),
                            body: self.pages[k].body.clone(),
                            options,
                        };
                        proof {
                            assert(hydrated(p, self.pages@[k as int], self.choices@));
                        }
                        pages.push(p);
                    }
                }
                proof {
                    assert(self.pages@.take(n as int) =~= self.pages@);
                }
                let s = Story {
                    id: self.stories[idx].id,
                    title: self.stories[idx].title.clone(),
                    start_page: self.stories[idx].start_page,
                    pages,
                };
                proof {
                    assert forall|i: int|
                        0 <= i < self.stories@.len() && (#[trigger] self.stories@[i]).id == id
                            implies i == idx as int by {
                        if i != idx as int {
                            if i < idx as int {
                                assert(self.stories@[i].id < self.stories@[idx as int].id);
                            } else {
                                assert(self.stories@[idx as int].id < self.stories@[i].id);
                            }
                        }
                    }
                    lemma_pages_of_sorted(self.pages@, id);
                }
                Ok(s)
            },
        }
    }

    /// Deletes the story row carrying `id`; reports `NotFound` when no row
    /// does. Pages and choices owned by the story are left in place: this
    /// layer does not cascade.
    pub fn delete_story(&mut self, id: StoryId) -> (r: Result<(), DbError>)
        requires
            old(self).wf(),
        ensures
            final(self).wf(),
            r is Ok <==> old(self).has_story(id),
            r matches Err(e) ==> e == DbError::NotFound && *final(self) == *old(self),
            r is Ok ==> exists|i: int|
                0 <= i < old(self).stories@.len() && (#[trigger] old(self).stories@[i]).id == id
                    && final(self).stories@ == old(self).stories@.remove(i),
            final(self).pages@ == old(self).pages@,
            final(self).choices@ == old(self).choices@,
            final(self).next_story_id == old(self).next_story_id,
            final(self).next_page_id == old(self).next_page_id,
            final(self).next_choice_id == old(self).next_choice_id,
    {
        match self.find_story(id) {
            None => Err(DbError::NotFound),
            Some(idx) => {
                self.stories.remove(idx);
                Ok(())
            },
        }
    }
}

} // verus!
