//! The collection store: papers grouped by update time, then by category.
//!
//! The store is an insertion-ordered mapping from a time key to a group,
//! and each group an insertion-ordered mapping from a category title to a
//! run of unique papers. Inserting a paper that is structurally equal to
//! one already in its group is a no-op; otherwise it is appended, so the
//! order of first occurrence is preserved. Buckets can be dropped by a
//! retention cutoff, and a whole store can be folded into another with the
//! same deduplication rule.

use vstd::prelude::*;

use crate::paper::{Arxiv, ArxivView, arxiv_eq, string_eq};

verus! {

// ---------------------------------------------------------------------------
// data
// ---------------------------------------------------------------------------

/// Mathematical value of an [`ArxivCategory`].
#[verifier::ext_equal]
pub ghost struct CategoryView {
    pub subject: Seq<char>,
    pub papers: Seq<ArxivView>,
}

/// One category group: a title and the unique papers filed under it,
/// in order of first insertion.
#[derive(Clone, Debug, PartialEq, Eq)]
pub struct ArxivCategory {
    pub subject: String,
    pub papers: Vec<Arxiv>,
}

impl View for ArxivCategory {
    type V = CategoryView;

    open spec fn view(&self) -> CategoryView {
        CategoryView { subject: self.subject@, papers: self.papers.deep_view() }
    }
}

impl DeepView for ArxivCategory {
    type V = CategoryView;

    open spec fn deep_view(&self) -> CategoryView {
        self.view()
    }
}

/// Mathematical value of an [`ArxivDaily`].
#[verifier::ext_equal]
pub ghost struct DailyView {
    pub datetime: int,
    pub subjects: Seq<CategoryView>,
}

/// One time bucket: an update-time key and its category groups, in order
/// of first insertion.
#[derive(Clone, Debug, PartialEq, Eq)]
pub struct ArxivDaily {
    pub datetime: i64,
    pub subjects: Vec<ArxivCategory>,
}

impl View for ArxivDaily {
    type V = DailyView;

    open spec fn view(&self) -> DailyView {
        DailyView { datetime: self.datetime as int, subjects: self.subjects.deep_view() }
    }
}

impl DeepView for ArxivDaily {
    type V = DailyView;

    open spec fn deep_view(&self) -> DailyView {
        self.view()
    }
}

/// The whole store: time buckets in order of first insertion.
#[derive(Clone, Debug, PartialEq, Eq)]
pub struct ArxivCollection {
    pub days: Vec<ArxivDaily>,
}

impl View for ArxivCollection {
    type V = Seq<DailyView>;

    open spec fn view(&self) -> Seq<DailyView> {
        self.days.deep_view()
    }
}

// ---------------------------------------------------------------------------
// well-formedness
// ---------------------------------------------------------------------------

/// No two papers of a group are structurally equal.
pub open spec fn papers_wf(ps: Seq<ArxivView>) -> bool {
    forall|i: int, j: int| 0 <= i < j < ps.len() ==> ps[i] != ps[j]
}

/// Category titles are unique within a bucket and each group is duplicate-free.
pub open spec fn cats_wf(cs: Seq<CategoryView>) -> bool {
    &&& forall|i: int, j: int| 0 <= i < j < cs.len() ==> cs[i].subject != cs[j].subject
    &&& forall|i: int| 0 <= i < cs.len() ==> papers_wf(#[trigger] cs[i].papers)
}

/// Time keys are unique and every bucket is well-formed.
pub open spec fn days_wf(ds: Seq<DailyView>) -> bool {
    &&& forall|i: int, j: int| 0 <= i < j < ds.len() ==> ds[i].datetime != ds[j].datetime
    &&& forall|i: int| 0 <= i < ds.len() ==> cats_wf(#[trigger] ds[i].subjects)
}

// ---------------------------------------------------------------------------
// membership
// ---------------------------------------------------------------------------

/// Whether some group named `c` among `cs` holds paper `q`.
pub open spec fn cats_have(cs: Seq<CategoryView>, c: Seq<char>, q: ArxivView) -> bool {
    exists|j: int| 0 <= j < cs.len() && #[trigger] cs[j].subject == c && cs[j].papers.contains(q)
}

/// Whether the store holds paper `q` under time key `b` and category `c`.
pub open spec fn coll_has(ds: Seq<DailyView>, b: int, c: Seq<char>, q: ArxivView) -> bool {
    exists|i: int| 0 <= i < ds.len() && #[trigger] ds[i].datetime == b && cats_have(
        ds[i].subjects,
        c,
        q,
    )
}

// ---------------------------------------------------------------------------
// the insertion model
// ---------------------------------------------------------------------------

/// The retention predicate: a bucket stays when its time key is at or
/// after the cutoff.
pub open spec fn keep_after(cutoff: i64) -> spec_fn(DailyView) -> bool {
    |d: DailyView| d.datetime >= cutoff
}

/// A group after one insertion: unchanged when the paper is already
/// present, else with the paper appended.
pub open spec fn papers_insert(ps: Seq<ArxivView>, p: ArxivView) -> Seq<ArxivView> {
    if ps.contains(p) {
        ps
    } else {
        ps.push(p)
    }
}

/// The position of the first group named `c`, if any.
pub open spec fn cat_idx(cs: Seq<CategoryView>, c: Seq<char>) -> Option<int>
    decreases cs.len(),
{
    if cs.len() == 0 {
        None
    } else if cs[0].subject == c {
        Some(0)
    } else {
        match cat_idx(cs.skip(1), c) {
            Some(i) => Some(i + 1),
            None => None,
        }
    }
}

/// The position of the first bucket keyed `b`, if any.
pub open spec fn day_idx(ds: Seq<DailyView>, b: int) -> Option<int>
    decreases ds.len(),
{
    if ds.len() == 0 {
        None
    } else if ds[0].datetime == b {
        Some(0)
    } else {
        match day_idx(ds.skip(1), b) {
            Some(i) => Some(i + 1),
            None => None,
        }
    }
}

/// A bucket's groups after one insertion under category `c`.
pub open spec fn cats_insert(cs: Seq<CategoryView>, c: Seq<char>, p: ArxivView) -> Seq<
    CategoryView,
> {
    match cat_idx(cs, c) {
        Some(i) => cs.update(
            i,
            CategoryView { subject: cs[i].subject, papers: papers_insert(cs[i].papers, p) },
        ),
        None => cs.push(CategoryView { subject: c, papers: seq![p] }),
    }
}

/// The store after one insertion under time key `b` and category `c`.
pub open spec fn days_insert(ds: Seq<DailyView>, b: int, c: Seq<char>, p: ArxivView) -> Seq<
    DailyView,
> {
    match day_idx(ds, b) {
        Some(i) => ds.update(
            i,
            DailyView { datetime: ds[i].datetime, subjects: cats_insert(ds[i].subjects, c, p) },
        ),
        None => ds.push(
            DailyView { datetime: b, subjects: seq![CategoryView { subject: c, papers: seq![p] }] },
        ),
    }
}

/// The store after filing every paper of `ps` in order under one time
/// key and category: the left fold of [`days_insert`].
pub open spec fn days_insert_all(
    ds: Seq<DailyView>,
    b: int,
    c: Seq<char>,
    ps: Seq<ArxivView>,
) -> Seq<DailyView>
    decreases ps.len(),
{
    if ps.len() == 0 {
        ds
    } else {
        days_insert_all(days_insert(ds, b, c, ps[0]), b, c, ps.skip(1))
    }
}

/// The store after folding in a bucket's groups in order, each under the
/// bucket's own time key.
pub open spec fn days_insert_cats(ds: Seq<DailyView>, b: int, cs: Seq<CategoryView>) -> Seq<
    DailyView,
>
    decreases cs.len(),
{
    if cs.len() == 0 {
        ds
    } else {
        days_insert_cats(days_insert_all(ds, b, cs[0].subject, cs[0].papers), b, cs.skip(1))
    }
}

/// The store after folding in every bucket of another store in order:
/// what one merge does.
pub open spec fn days_merge(ds: Seq<DailyView>, other: Seq<DailyView>) -> Seq<DailyView>
    decreases other.len(),
{
    if other.len() == 0 {
        ds
    } else {
        days_merge(days_insert_cats(ds, other[0].datetime, other[0].subjects), other.skip(1))
    }
}

// ---------------------------------------------------------------------------
// what the first-index functions mean
// ---------------------------------------------------------------------------

/// `cat_idx` names the first group with the given title, and `None`
/// means there is none.
pub proof fn lemma_cat_idx(cs: Seq<CategoryView>, c: Seq<char>)
    ensures
        (match cat_idx(cs, c) {
            Some(i) => 0 <= i < cs.len() && cs[i].subject == c && (forall|j: int|
                0 <= j < i ==> cs[j].subject != c),
            None => forall|j: int| 0 <= j < cs.len() ==> cs[j].subject != c,
        }),
    decreases cs.len(),
{
    if cs.len() == 0 {
    } else if cs[0].subject == c {
    } else {
        let tail = cs.skip(1);
        lemma_cat_idx(tail, c);
        match cat_idx(tail, c) {
            Some(i) => {
                assert(tail[i] == cs[i + 1]);
                assert forall|j: int| 0 <= j < i + 1 implies cs[j].subject != c by {
                    if j > 0 {
                        assert(tail[j - 1] == cs[j]);
                    }
                }
            },
            None => {
                assert forall|j: int| 0 <= j < cs.len() implies cs[j].subject != c by {
                    if j > 0 {
                        assert(tail[j - 1] == cs[j]);
                    }
                }
            },
        }
    }
}

/// `day_idx` names the first bucket with the given key, and `None` means
/// there is none.
pub proof fn lemma_day_idx(ds: Seq<DailyView>, b: int)
    ensures
        (match day_idx(ds, b) {
            Some(i) => 0 <= i < ds.len() && ds[i].datetime == b && (forall|j: int|
                0 <= j < i ==> ds[j].datetime != b),
            None => forall|j: int| 0 <= j < ds.len() ==> ds[j].datetime != b,
        }),
    decreases ds.len(),
{
    if ds.len() == 0 {
    } else if ds[0].datetime == b {
    } else {
        let tail = ds.skip(1);
        lemma_day_idx(tail, b);
        match day_idx(tail, b) {
            Some(i) => {
                assert(tail[i] == ds[i + 1]);
                assert forall|j: int| 0 <= j < i + 1 implies ds[j].datetime != b by {
                    if j > 0 {
                        assert(tail[j - 1] == ds[j]);
                    }
                }
            },
            None => {
                assert forall|j: int| 0 <= j < ds.len() implies ds[j].datetime != b by {
                    if j > 0 {
                        assert(tail[j - 1] == ds[j]);
                    }
                }
            },
        }
    }
}

// ---------------------------------------------------------------------------
// laws of insertion
// ---------------------------------------------------------------------------

/// A group holds `q` after inserting `p` exactly where it held `q`
/// before or `q` is `p`.
pub proof fn lemma_papers_insert_has(ps: Seq<ArxivView>, p: ArxivView, q: ArxivView)
    ensures
        papers_insert(ps, p).contains(q) <==> (ps.contains(q) || q == p),
{
    if ps.contains(p) {
    } else {
        let ps2 = ps.push(p);
        assert(ps2[ps.len() as int] == p);
        if ps.contains(q) {
            let w = choose|i: int| 0 <= i < ps.len() && ps[i] == q;
            assert(ps2[w] == q);
        }
        if ps2.contains(q) && q != p {
            let w = choose|i: int| 0 <= i < ps2.len() && ps2[i] == q;
            assert(ps[w] == q);
        }
    }
}

/// The store holds a triple after one insertion exactly where it held it
/// before or it is the inserted triple.
pub proof fn lemma_insert_membership(
    ds: Seq<DailyView>,
    b: int,
    c: Seq<char>,
    p: ArxivView,
    b2: int,
    c2: Seq<char>,
    q: ArxivView,
)
    ensures
        coll_has(days_insert(ds, b, c, p), b2, c2, q) <==> (coll_has(ds, b2, c2, q) || (b2 == b
            && c2 == c && q == p)),
{
    lemma_day_idx(ds, b);
    lemma_papers_insert_has(seq![p], p, q);
    match day_idx(ds, b) {
        Some(i) => {
            let cs = ds[i].subjects;
            lemma_cat_idx(cs, c);
            let ds2 = days_insert(ds, b, c, p);
            assert(ds2.len() == ds.len());
            assert(forall|k: int| 0 <= k < ds.len() && k != i ==> ds2[k] == ds[k]);
            lemma_cats_insert_have(cs, c, p, c2, q);
            // forward: anything in the new store came from the old or is the insertion
            if coll_has(ds2, b2, c2, q) {
                let w = choose|k: int|
                    0 <= k < ds2.len() && #[trigger] ds2[k].datetime == b2 && cats_have(
                        ds2[k].subjects,
                        c2,
                        q,
                    );
                if w != i {
                    assert(coll_has(ds, b2, c2, q));
                } else {
                    if cats_have(cs, c2, q) {
                        assert(coll_has(ds, b2, c2, q));
                    } else {
                        assert(b2 == b && c2 == c && q == p);
                    }
                }
            }
            // backward: the old store's triples survive
            if coll_has(ds, b2, c2, q) {
                let w = choose|k: int|
                    0 <= k < ds.len() && #[trigger] ds[k].datetime == b2 && cats_have(
                        ds[k].subjects,
                        c2,
                        q,
                    );
                if w != i {
                    assert(ds2[w].datetime == b2 && cats_have(ds2[w].subjects, c2, q));
                } else {
                    assert(cats_have(cats_insert(cs, c, p), c2, q));
                    assert(ds2[i].datetime == b2);
                }
                assert(coll_has(ds2, b2, c2, q));
            }
            // and the inserted triple is present
            if b2 == b && c2 == c && q == p {
                assert(cats_have(cats_insert(cs, c, p), c, p));
                assert(ds2[i].datetime == b);
                assert(coll_has(ds2, b2, c2, q));
            }
        },
        None => {
            let ds2 = days_insert(ds, b, c, p);
            let nd = DailyView {
                datetime: b,
                subjects: seq![CategoryView { subject: c, papers: seq![p] }],
            };
            assert(ds2[ds.len() as int] == nd);
            assert(forall|k: int| 0 <= k < ds.len() ==> ds2[k] == ds[k]);
            if coll_has(ds2, b2, c2, q) {
                let w = choose|k: int|
                    0 <= k < ds2.len() && #[trigger] ds2[k].datetime == b2 && cats_have(
                        ds2[k].subjects,
                        c2,
                        q,
                    );
                if w < ds.len() {
                    assert(coll_has(ds, b2, c2, q));
                } else {
                    assert(ds2[w] == nd);
                    let wc = choose|j: int|
                        0 <= j < nd.subjects.len() && #[trigger] nd.subjects[j].subject == c2
                            && nd.subjects[j].papers.contains(q);
                    assert(nd.subjects[0] == (CategoryView { subject: c, papers: seq![p] }));
                    assert(wc == 0);
                    let wp = choose|k: int|
                        0 <= k < nd.subjects[0].papers.len() && nd.subjects[0].papers[k] == q;
                    assert(nd.subjects[0].papers[0] == p);
                    assert(b2 == b && c2 == c && q == p);
                }
            }
            if coll_has(ds, b2, c2, q) {
                let w = choose|k: int|
                    0 <= k < ds.len() && #[trigger] ds[k].datetime == b2 && cats_have(
                        ds[k].subjects,
                        c2,
                        q,
                    );
                assert(ds2[w].datetime == b2 && cats_have(ds2[w].subjects, c2, q));
                assert(coll_has(ds2, b2, c2, q));
            }
            if b2 == b && c2 == c && q == p {
                assert(nd.subjects[0] == (CategoryView { subject: c, papers: seq![p] }));
                assert(nd.subjects[0].papers[0] == p);
                assert(nd.subjects[0].subject == c && nd.subjects[0].papers.contains(p));
                assert(cats_have(nd.subjects, c, p));
                assert(ds2[ds.len() as int].datetime == b);
                assert(coll_has(ds2, b2, c2, q));
            }
        },
    }
}

/// A bucket's groups hold a pair after one insertion exactly where they
/// held it before or it is the inserted pair.
pub proof fn lemma_cats_insert_have(
    cs: Seq<CategoryView>,
    c: Seq<char>,
    p: ArxivView,
    c2: Seq<char>,
    q: ArxivView,
)
    ensures
        cats_have(cats_insert(cs, c, p), c2, q) <==> (cats_have(cs, c2, q) || (c2 == c && q == p)),
{
    lemma_cat_idx(cs, c);
    match cat_idx(cs, c) {
        Some(i) => {
            let cs2 = cats_insert(cs, c, p);
            lemma_papers_insert_has(cs[i].papers, p, q);
            assert(cs2.len() == cs.len());
            assert(forall|k: int| 0 <= k < cs.len() && k != i ==> cs2[k] == cs[k]);
            if cats_have(cs2, c2, q) {
                let w = choose|j: int|
                    0 <= j < cs2.len() && #[trigger] cs2[j].subject == c2 && cs2[j].papers.contains(
                        q,
                    );
                if w != i {
                    assert(cats_have(cs, c2, q));
                } else {
                    if cs[i].papers.contains(q) {
                        assert(cats_have(cs, c2, q));
                    } else {
                        assert(c2 == c && q == p);
                    }
                }
            }
            if cats_have(cs, c2, q) {
                let w = choose|j: int|
                    0 <= j < cs.len() && #[trigger] cs[j].subject == c2 && cs[j].papers.contains(q);
                assert(cs2[w].subject == c2 && cs2[w].papers.contains(q));
                assert(cats_have(cs2, c2, q));
            }
            if c2 == c && q == p {
                assert(cs2[i].subject == c && cs2[i].papers.contains(p));
                assert(cats_have(cs2, c2, q));
            }
        },
        None => {
            let cs2 = cats_insert(cs, c, p);
            let nc = CategoryView { subject: c, papers: seq![p] };
            assert(cs2[cs.len() as int] == nc);
            assert(forall|k: int| 0 <= k < cs.len() ==> cs2[k] == cs[k]);
            if cats_have(cs2, c2, q) {
                let w = choose|j: int|
                    0 <= j < cs2.len() && #[trigger] cs2[j].subject == c2 && cs2[j].papers.contains(
                        q,
                    );
                if w < cs.len() {
                    assert(cats_have(cs, c2, q));
                } else {
                    assert(cs2[w] == nc);
                    let wp = choose|k: int| 0 <= k < nc.papers.len() && nc.papers[k] == q;
                    assert(nc.papers[0] == p);
                    assert(c2 == c && q == p);
                }
            }
            if cats_have(cs, c2, q) {
                let w = choose|j: int|
                    0 <= j < cs.len() && #[trigger] cs[j].subject == c2 && cs[j].papers.contains(q);
                assert(cs2[w].subject == c2 && cs2[w].papers.contains(q));
                assert(cats_have(cs2, c2, q));
            }
            if c2 == c && q == p {
                assert(nc.papers[0] == p);
                assert(nc.papers.contains(p));
                assert(cs2[cs.len() as int].subject == c2);
                assert(cs2[cs.len() as int].papers.contains(q));
                assert(cats_have(cs2, c2, q));
            }
        },
    }
}

/// Insertion keeps the store well-formed.
pub proof fn lemma_insert_wf(ds: Seq<DailyView>, b: int, c: Seq<char>, p: ArxivView)
    requires
        days_wf(ds),
    ensures
        days_wf(days_insert(ds, b, c, p)),
{
    lemma_day_idx(ds, b);
    match day_idx(ds, b) {
        Some(i) => {
            let cs = ds[i].subjects;
            lemma_cat_idx(cs, c);
            let ds2 = days_insert(ds, b, c, p);
            assert(cats_wf(cs));
            match cat_idx(cs, c) {
                Some(j) => {
                    assert(papers_wf(cs[j].papers));
                    if !cs[j].papers.contains(p) {
                        let ps2 = cs[j].papers.push(p);
                        assert(forall|x: int, y: int|
                            0 <= x < y < ps2.len() ==> ps2[x] != ps2[y]) by {
                            assert(forall|x: int| 0 <= x < cs[j].papers.len()
                                ==> ps2[x] == cs[j].papers[x]);
                            assert(ps2[ps2.len() - 1] == p);
                        }
                        assert(papers_wf(ps2));
                    }
                    assert(cats_wf(cats_insert(cs, c, p)));
                },
                None => {
                    let cs2 = cats_insert(cs, c, p);
                    assert(forall|k: int| 0 <= k < cs.len() ==> cs2[k] == cs[k]);
                    assert(cs2[cs.len() as int].subject == c);
                    assert(papers_wf(cs2[cs.len() as int].papers));
                    assert(cats_wf(cs2));
                },
            }
            assert(forall|k: int| 0 <= k < ds.len() && k != i ==> ds2[k] == ds[k]);
            assert(ds2[i].datetime == ds[i].datetime);
            assert(days_wf(ds2));
        },
        None => {
            let ds2 = days_insert(ds, b, c, p);
            assert(forall|k: int| 0 <= k < ds.len() ==> ds2[k] == ds[k]);
            let nd = ds2[ds.len() as int];
            assert(nd.datetime == b);
            assert(nd.subjects.len() == 1);
            assert(papers_wf(nd.subjects[0].papers));
            assert(cats_wf(nd.subjects));
            assert(days_wf(ds2));
        },
    }
}

/// Dedup idempotence: inserting a paper the store already holds under the
/// same time key and category changes nothing.
pub proof fn lemma_insert_idempotent(ds: Seq<DailyView>, b: int, c: Seq<char>, p: ArxivView)
    requires
        days_wf(ds),
        coll_has(ds, b, c, p),
    ensures
        days_insert(ds, b, c, p) == ds,
{
    let w = choose|i: int|
        0 <= i < ds.len() && #[trigger] ds[i].datetime == b && cats_have(ds[i].subjects, c, p);
    lemma_day_idx(ds, b);
    let i = day_idx(ds, b)->Some_0;
    assert(ds[w].datetime == b && ds[i].datetime == b);
    assert(i == w) by {
        if i < w {
            assert(ds[i].datetime != ds[w].datetime);
        } else if w < i {
            assert(ds[w].datetime != ds[i].datetime);
        }
    }
    let cs = ds[i].subjects;
    let wc = choose|j: int|
        0 <= j < cs.len() && #[trigger] cs[j].subject == c && cs[j].papers.contains(p);
    lemma_cat_idx(cs, c);
    let j = cat_idx(cs, c)->Some_0;
    assert(j == wc) by {
        if j < wc {
            assert(cs[j].subject != cs[wc].subject);
        } else if wc < j {
            assert(cs[wc].subject != cs[j].subject);
        }
    }
    assert(papers_insert(cs[j].papers, p) == cs[j].papers);
    assert(cats_insert(cs, c, p) =~= cs) by {
        assert(CategoryView { subject: cs[j].subject, papers: cs[j].papers } =~= cs[j]);
    }
    assert(days_insert(ds, b, c, p) =~= ds) by {
        assert(DailyView { datetime: ds[i].datetime, subjects: cs } =~= ds[i]);
    }
}

/// Inserting the same triple twice is the same as inserting it once.
pub proof fn lemma_insert_twice(ds: Seq<DailyView>, b: int, c: Seq<char>, p: ArxivView)
    requires
        days_wf(ds),
    ensures
        days_insert(days_insert(ds, b, c, p), b, c, p) == days_insert(ds, b, c, p),
{
    lemma_insert_wf(ds, b, c, p);
    lemma_insert_membership(ds, b, c, p, b, c, p);
    lemma_insert_idempotent(days_insert(ds, b, c, p), b, c, p);
}

// ---------------------------------------------------------------------------
// the executable store
// ---------------------------------------------------------------------------

impl ArxivCategory {
    /// A fresh group holding one paper.
    pub fn single(subject: String, paper: Arxiv) -> (r: ArxivCategory)
        ensures
            r@ == (CategoryView { subject: subject@, papers: seq![paper@] }),
    {
        let mut papers: Vec<Arxiv> = Vec::new();
        papers.push(paper);
        let r = ArxivCategory { subject, papers };
        proof {
            assert(r.papers.deep_view() =~= seq![r.papers@[0]@]);
        }
        r
    }

    /// Files a paper in this group unless a structurally equal one is
    /// already there.
    pub fn add_paper(&mut self, paper: Arxiv)
        ensures
            final(self)@.subject == old(self)@.subject,
            final(self)@.papers == papers_insert(old(self)@.papers, paper@),
    {
        let ghost dv = self.papers.deep_view();
        let mut present = false;
        let mut i: usize = 0;
        while i < self.papers.len()
            invariant
                i <= self.papers.len(),
                dv == self.papers.deep_view(),
                dv.len() == self.papers@.len(),
                present ==> dv.contains(paper@),
                !present ==> (forall|j: int| 0 <= j < i ==> dv[j] != paper@),
            decreases self.papers.len() - i,
        {
            if !present && arxiv_eq(&self.papers[i], &paper) {
                proof {
                    assert(dv[i as int] == self.papers@[i as int]@);
                }
                present = true;
            }
            i = i + 1;
        }
        if !present {
            proof {
                assert(!dv.contains(paper@));
            }
            let ghost prev = self.papers.deep_view();
            self.papers.push(paper);
            proof {
                assert(self.papers.deep_view() =~= prev.push(paper@));
            }
        }
    }
}

impl ArxivDaily {
    /// A fresh bucket with the given time key and groups.
    pub fn new(datetime: i64, subjects: Vec<ArxivCategory>) -> (r: ArxivDaily)
        ensures
            r@ == (DailyView { datetime: datetime as int, subjects: subjects.deep_view() }),
    {
        ArxivDaily { datetime, subjects }
    }

    /// Files a paper under a category of this bucket, creating the group
    /// on its first use and deduplicating within it.
    pub fn insert_paper(&mut self, subject: &String, paper: Arxiv)
        ensures
            final(self)@.datetime == old(self)@.datetime,
            final(self)@.subjects == cats_insert(old(self)@.subjects, subject@, paper@),
    {
        let ghost cs = self.subjects.deep_view();
        let mut at: Option<usize> = None;
        let mut i: usize = 0;
        while i < self.subjects.len()
            invariant
                i <= self.subjects.len(),
                cs == self.subjects.deep_view(),
                cs.len() == self.subjects@.len(),
                (match at {
                    Some(k) => k < cs.len() && cs[k as int].subject == subject@ && (forall|j: int|
                        0 <= j < k ==> cs[j].subject != subject@),
                    None => forall|j: int| 0 <= j < i ==> cs[j].subject != subject@,
                }),
            decreases self.subjects.len() - i,
        {
            if at.is_none() && string_eq(&self.subjects[i].subject, subject) {
                proof {
                    assert(cs[i as int] == self.subjects@[i as int]@);
                }
                at = Some(i);
            }
            i = i + 1;
        }
        proof {
            lemma_cat_idx(cs, subject@);
        }
        match at {
            Some(k) => {
                proof {
                    assert(cat_idx(cs, subject@) == Some(k as int));
                }
                let mut cat = self.subjects.remove(k);
                cat.add_paper(paper);
                self.subjects.insert(k, cat);
                proof {
                    assert(self.subjects.deep_view() =~= cs.update(
                        k as int,
                        CategoryView {
                            subject: cs[k as int].subject,
                            papers: papers_insert(cs[k as int].papers, paper@),
                        },
                    ));
                }
            },
            None => {
                proof {
                    assert(cat_idx(cs, subject@) is None);
                }
                self.subjects.push(ArxivCategory::single(subject.clone(), paper));
                proof {
                    assert(self.subjects.deep_view() =~= cats_insert(cs, subject@, paper@));
                }
            },
        }
    }
}

impl ArxivCollection {
    /// An empty store.
    pub fn new() -> (r: ArxivCollection)
        ensures
            r@ == Seq::<DailyView>::empty(),
    {
        let r = ArxivCollection { days: Vec::new() };
        proof {
            assert(r.days.deep_view() =~= Seq::<DailyView>::empty());
        }
        r
    }

    /// Files a paper under a time key and a category. Inserting a paper
    /// already filed there is a no-op; otherwise order of first insertion
    /// is preserved throughout.
    pub fn insert(&mut self, datetime: i64, subject: &String, paper: Arxiv)
        ensures
            final(self)@ == days_insert(old(self)@, datetime as int, subject@, paper@),
            days_wf(old(self)@) ==> days_wf(final(self)@),
    {
        proof {
            if days_wf(self@) {
                lemma_insert_wf(self@, datetime as int, subject@, paper@);
            }
        }
        let ghost ds = self.days.deep_view();
        let mut at: Option<usize> = None;
        let mut i: usize = 0;
        while i < self.days.len()
            invariant
                i <= self.days.len(),
                ds == self.days.deep_view(),
                ds.len() == self.days@.len(),
                (match at {
                    Some(k) => k < ds.len() && ds[k as int].datetime == datetime as int && (
                    forall|j: int| 0 <= j < k ==> ds[j].datetime != datetime as int),
                    None => forall|j: int| 0 <= j < i ==> ds[j].datetime != datetime as int,
                }),
            decreases self.days.len() - i,
        {
            if at.is_none() && self.days[i].datetime == datetime {
                proof {
                    assert(ds[i as int] == self.days@[i as int]@);
                }
                at = Some(i);
            }
            i = i + 1;
        }
        proof {
            lemma_day_idx(ds, datetime as int);
        }
        match at {
            Some(k) => {
                proof {
                    assert(day_idx(ds, datetime as int) == Some(k as int));
                }
                let mut day = self.days.remove(k);
                day.insert_paper(subject, paper);
                self.days.insert(k, day);
                proof {
                    assert(self.days.deep_view() =~= ds.update(
                        k as int,
                        DailyView {
                            datetime: ds[k as int].datetime,
                            subjects: cats_insert(ds[k as int].subjects, subject@, paper@),
                        },
                    ));
                }
            },
            None => {
                proof {
                    assert(day_idx(ds, datetime as int) is None);
                }
                let cat = ArxivCategory::single(subject.clone(), paper);
                let ghost catv = cat@;
                let mut subjects: Vec<ArxivCategory> = Vec::new();
                subjects.push(cat);
                proof {
                    assert(subjects.deep_view() =~= seq![catv]);
                }
                let day = ArxivDaily::new(datetime, subjects);
                let ghost dayv = day@;
                self.days.push(day);
                proof {
                    assert(self.days.deep_view() =~= ds.push(dayv));
                    assert(self.days.deep_view() =~= days_insert(
                        ds,
                        datetime as int,
                        subject@,
                        paper@,
                    ));
                }
            },
        }
    }

    /// Keeps only the buckets whose time key is at or after `cutoff`,
    /// in order: the retention sweep.
    pub fn retain_recent(&mut self, cutoff: i64)
        ensures
            final(self)@ == old(self)@.filter(keep_after(cutoff)),
            days_wf(old(self)@) ==> days_wf(final(self)@),
    {
        let ghost orig = self.days.deep_view();
        let mut kept: Vec<ArxivDaily> = Vec::new();
        let ghost mut done: Seq<DailyView> = Seq::<DailyView>::empty();
        proof {
            assert(done + self.days.deep_view() =~= orig);
            assert(kept.deep_view() =~= done.filter(keep_after(cutoff)));
        }
        while self.days.len() > 0
            invariant
                done + self.days.deep_view() == orig,
                kept.deep_view() == done.filter(keep_after(cutoff)),
            decreases self.days.len(),
        {
            let ghost rem = self.days.deep_view();
            let ghost kv = kept.deep_view();
            let d = self.days.remove(0);
            let ghost dv = d@;
            proof {
                assert(rem[0] == dv);
                assert(self.days.deep_view() =~= rem.skip(1));
                assert(done.push(dv) + self.days.deep_view() =~= orig);
                assert((done.push(dv)).drop_last() =~= done);
                assert((done.push(dv)).last() == dv);
            }
            if d.datetime >= cutoff {
                kept.push(d);
                proof {
                    reveal(Seq::filter);
                    assert(keep_after(cutoff)(dv));
                    assert(kept.deep_view() =~= kv.push(dv));
                    assert(done.push(dv).filter(keep_after(cutoff)) =~= kept.deep_view());
                }
            } else {
                proof {
                    reveal(Seq::filter);
                    assert(!keep_after(cutoff)(dv));
                    assert(done.push(dv).filter(keep_after(cutoff)) =~= kept.deep_view());
                }
            }
            proof {
                done = done.push(dv);
            }
        }
        proof {
            assert(self.days.deep_view() =~= Seq::<DailyView>::empty());
            assert(done =~= orig);
        }
        self.days = kept;
        proof {
            if days_wf(orig) {
                lemma_filter_of_wf(orig, cutoff);
            }
        }
    }
}

/// The retention sweep of a well-formed store is well-formed.
proof fn lemma_filter_of_wf(ds: Seq<DailyView>, cutoff: i64)
    requires
        days_wf(ds),
    ensures
        days_wf(ds.filter(keep_after(cutoff))),
    decreases ds.len(),
{
    reveal(Seq::filter);
    let pred = keep_after(cutoff);
    if ds.len() == 0 {
    } else {
        let head = ds.drop_last();
        assert(forall|i: int| 0 <= i < head.len() ==> head[i] == ds[i]);
        assert(days_wf(head));
        lemma_filter_of_wf(head, cutoff);
        let hf = head.filter(pred);
        if pred(ds.last()) {
            let f = ds.filter(pred);
            assert(f == hf.push(ds.last()));
            assert forall|i: int, j: int| 0 <= i < j < f.len() implies f[i].datetime
                != f[j].datetime by {
                if j < f.len() - 1 {
                    assert(hf[i] == f[i] && hf[j] == f[j]);
                } else {
                    assert(f[j] == ds.last());
                    assert(hf.contains(hf[i]));
                    lemma_filter_member_of(head, cutoff, i);
                }
            }
            assert forall|i: int| 0 <= i < f.len() implies cats_wf(#[trigger] f[i].subjects) by {
                if i < f.len() - 1 {
                    assert(f[i] == hf[i]);
                } else {
                    assert(f[i] == ds.last());
                    assert(ds[ds.len() - 1] == ds.last());
                }
            }
        }
    }
}

impl ArxivCollection {
    /// Files every paper of `papers` in order under one time key and
    /// category, deduplicating as [`ArxivCollection::insert`] does: the
    /// left fold of the single insertion.
    pub fn insert_group(&mut self, datetime: i64, subject: &String, papers: &Vec<Arxiv>)
        ensures
            final(self)@ == days_insert_all(
                old(self)@,
                datetime as int,
                subject@,
                papers.deep_view(),
            ),
            days_wf(old(self)@) ==> days_wf(final(self)@),
            forall|b: int, c: Seq<char>, q: ArxivView|
                #[trigger] coll_has(final(self)@, b, c, q) <==> (coll_has(old(self)@, b, c, q) || (
                b == datetime as int && c == subject@ && papers.deep_view().contains(q))),
    {
        let ghost orig = self@;
        let ghost pv = papers.deep_view();
        let mut k: usize = 0;
        proof {
            assert(pv.take(0) =~= Seq::<ArxivView>::empty());
            assert(pv.skip(0) =~= pv);
        }
        while k < papers.len()
            invariant
                k <= papers.len(),
                pv == papers.deep_view(),
                pv.len() == papers@.len(),
                days_wf(orig) ==> days_wf(self@),
                days_insert_all(self@, datetime as int, subject@, pv.skip(k as int))
                    == days_insert_all(orig, datetime as int, subject@, pv),
                forall|b: int, c: Seq<char>, q: ArxivView|
                    #[trigger] coll_has(self@, b, c, q) <==> (coll_has(orig, b, c, q) || (b
                        == datetime as int && c == subject@ && pv.take(k as int).contains(q))),
            decreases papers.len() - k,
        {
            let ghost prev = self@;
            let p = papers[k].duplicate();
            proof {
                assert(pv[k as int] == papers@[k as int]@);
                assert(pv.skip(k as int)[0] == pv[k as int]);
                assert(pv.skip(k as int).skip(1) =~= pv.skip(k + 1int));
            }
            self.insert(datetime, subject, p);
            proof {
                assert(days_insert_all(prev, datetime as int, subject@, pv.skip(k as int))
                    == days_insert_all(self@, datetime as int, subject@, pv.skip(k + 1int)));
                assert(pv.take(k + 1int) =~= pv.take(k as int).push(pv[k as int]));
                assert forall|b: int, c: Seq<char>, q: ArxivView|
                    #[trigger] coll_has(self@, b, c, q) <==> (coll_has(orig, b, c, q) || (b
                        == datetime as int && c == subject@ && pv.take(k + 1int).contains(q))) by {
                    lemma_insert_membership(prev, datetime as int, subject@, pv[k as int], b, c, q);
                    lemma_contains_push(pv.take(k as int), pv[k as int], q);
                }
            }
            k = k + 1;
        }
        proof {
            assert(pv.take(papers@.len() as int) =~= pv);
            assert(pv.skip(papers@.len() as int) =~= Seq::<ArxivView>::empty());
        }
    }

    /// Folds one bucket into the store, group by group and in order.
    pub fn insert_day(&mut self, day: &ArxivDaily)
        ensures
            final(self)@ == days_insert_cats(old(self)@, day.datetime as int, day@.subjects),
            days_wf(old(self)@) ==> days_wf(final(self)@),
            forall|b: int, c: Seq<char>, q: ArxivView|
                #[trigger] coll_has(final(self)@, b, c, q) <==> (coll_has(old(self)@, b, c, q) || (
                b == day.datetime as int && cats_have(day@.subjects, c, q))),
    {
        let ghost orig = self@;
        let ghost cs = day@.subjects;
        let mut j: usize = 0;
        proof {
            assert(cs.take(0) =~= Seq::<CategoryView>::empty());
            assert(cs.skip(0) =~= cs);
        }
        while j < day.subjects.len()
            invariant
                j <= day.subjects.len(),
                cs == day@.subjects,
                cs.len() == day.subjects@.len(),
                days_wf(orig) ==> days_wf(self@),
                days_insert_cats(self@, day.datetime as int, cs.skip(j as int))
                    == days_insert_cats(orig, day.datetime as int, cs),
                forall|b: int, c: Seq<char>, q: ArxivView|
                    #[trigger] coll_has(self@, b, c, q) <==> (coll_has(orig, b, c, q) || (b
                        == day.datetime as int && cats_have(cs.take(j as int), c, q))),
            decreases day.subjects.len() - j,
        {
            let ghost prev = self@;
            proof {
                assert(cs[j as int] == day.subjects@[j as int]@);
                assert(cs.skip(j as int)[0] == cs[j as int]);
                assert(cs.skip(j as int).skip(1) =~= cs.skip(j + 1int));
            }
            self.insert_group(day.datetime, &day.subjects[j].subject, &day.subjects[j].papers);
            proof {
                assert(days_insert_cats(prev, day.datetime as int, cs.skip(j as int))
                    == days_insert_cats(self@, day.datetime as int, cs.skip(j + 1int)));
                assert(cs.take(j + 1int) =~= cs.take(j as int).push(cs[j as int]));
                assert forall|b: int, c: Seq<char>, q: ArxivView|
                    #[trigger] coll_has(self@, b, c, q) <==> (coll_has(orig, b, c, q) || (b
                        == day.datetime as int && cats_have(cs.take(j + 1int), c, q))) by {
                    lemma_cats_have_push(cs.take(j as int), cs[j as int], c, q);
                }
            }
            j = j + 1;
        }
        proof {
            assert(cs.take(day.subjects@.len() as int) =~= cs);
            assert(cs.skip(day.subjects@.len() as int) =~= Seq::<CategoryView>::empty());
        }
    }

    /// Folds another store into this one, bucket by bucket and in order,
    /// with the same deduplication rule as single insertion: after the
    /// merge the store holds exactly the triples either store held.
    pub fn merge_from(&mut self, other: &ArxivCollection)
        ensures
            final(self)@ == days_merge(old(self)@, other@),
            days_wf(old(self)@) ==> days_wf(final(self)@),
            forall|b: int, c: Seq<char>, q: ArxivView|
                #[trigger] coll_has(final(self)@, b, c, q) <==> (coll_has(old(self)@, b, c, q)
                    || coll_has(other@, b, c, q)),
    {
        let ghost orig = self@;
        let ghost ov = other@;
        let mut i: usize = 0;
        proof {
            assert(ov.take(0) =~= Seq::<DailyView>::empty());
            assert(ov.skip(0) =~= ov);
        }
        while i < other.days.len()
            invariant
                i <= other.days.len(),
                ov == other@,
                ov.len() == other.days@.len(),
                days_wf(orig) ==> days_wf(self@),
                days_merge(self@, ov.skip(i as int)) == days_merge(orig, ov),
                forall|b: int, c: Seq<char>, q: ArxivView|
                    #[trigger] coll_has(self@, b, c, q) <==> (coll_has(orig, b, c, q) || coll_has(
                        ov.take(i as int),
                        b,
                        c,
                        q,
                    )),
            decreases other.days.len() - i,
        {
            let ghost prev = self@;
            proof {
                assert(ov[i as int] == other.days@[i as int]@);
                assert(ov.skip(i as int)[0] == ov[i as int]);
                assert(ov.skip(i as int).skip(1) =~= ov.skip(i + 1int));
            }
            self.insert_day(&other.days[i]);
            proof {
                assert(days_merge(prev, ov.skip(i as int)) == days_merge(self@, ov.skip(i + 1int)));
                assert(ov.take(i + 1int) =~= ov.take(i as int).push(ov[i as int]));
                assert forall|b: int, c: Seq<char>, q: ArxivView|
                    #[trigger] coll_has(self@, b, c, q) <==> (coll_has(orig, b, c, q) || coll_has(
                        ov.take(i + 1int),
                        b,
                        c,
                        q,
                    )) by {
                    lemma_coll_has_push(ov.take(i as int), ov[i as int], b, c, q);
                }
            }
            i = i + 1;
        }
        proof {
            assert(ov.take(other.days@.len() as int) =~= ov);
            assert(ov.skip(other.days@.len() as int) =~= Seq::<DailyView>::empty());
        }
    }
}

/// A pushed element is a member, and membership otherwise carries over.
pub proof fn lemma_contains_push<A>(s: Seq<A>, x: A, q: A)
    ensures
        s.push(x).contains(q) <==> (s.contains(q) || q == x),
{
    let s2 = s.push(x);
    assert(s2[s.len() as int] == x);
    if s.contains(q) {
        let w = choose|i: int| 0 <= i < s.len() && s[i] == q;
        assert(s2[w] == q);
    }
    if s2.contains(q) && q != x {
        let w = choose|i: int| 0 <= i < s2.len() && s2[i] == q;
        assert(s[w] == q);
    }
}

/// What a bucket's groups hold after one more group is appended.
proof fn lemma_cats_have_push(cs: Seq<CategoryView>, cv: CategoryView, c: Seq<char>, q: ArxivView)
    ensures
        cats_have(cs.push(cv), c, q) <==> (cats_have(cs, c, q) || (cv.subject == c
            && cv.papers.contains(q))),
{
    let cs2 = cs.push(cv);
    assert(cs2[cs.len() as int] == cv);
    if cats_have(cs, c, q) {
        let w = choose|j: int|
            0 <= j < cs.len() && #[trigger] cs[j].subject == c && cs[j].papers.contains(q);
        assert(cs2[w] == cs[w]);
        assert(cats_have(cs2, c, q));
    }
    if cv.subject == c && cv.papers.contains(q) {
        assert(cats_have(cs2, c, q));
    }
    if cats_have(cs2, c, q) {
        let w = choose|j: int|
            0 <= j < cs2.len() && #[trigger] cs2[j].subject == c && cs2[j].papers.contains(q);
        if w < cs.len() {
            assert(cs[w] == cs2[w]);
            assert(cats_have(cs, c, q));
        }
    }
}

/// What the store holds after one more bucket is appended.
proof fn lemma_coll_has_push(ds: Seq<DailyView>, dv: DailyView, b: int, c: Seq<char>, q: ArxivView)
    ensures
        coll_has(ds.push(dv), b, c, q) <==> (coll_has(ds, b, c, q) || (dv.datetime == b
            && cats_have(dv.subjects, c, q))),
{
    let ds2 = ds.push(dv);
    assert(ds2[ds.len() as int] == dv);
    if coll_has(ds, b, c, q) {
        let w = choose|i: int|
            0 <= i < ds.len() && #[trigger] ds[i].datetime == b && cats_have(ds[i].subjects, c, q);
        assert(ds2[w] == ds[w]);
        assert(coll_has(ds2, b, c, q));
    }
    if dv.datetime == b && cats_have(dv.subjects, c, q) {
        assert(coll_has(ds2, b, c, q));
    }
    if coll_has(ds2, b, c, q) {
        let w = choose|i: int|
            0 <= i < ds2.len() && #[trigger] ds2[i].datetime == b && cats_have(
                ds2[i].subjects,
                c,
                q,
            );
        if w < ds.len() {
            assert(ds[w] == ds2[w]);
            assert(coll_has(ds, b, c, q));
        }
    }
}

/// The retention sweep keeps exactly the triples whose time key is at or
/// after the cutoff: window correctness.
pub proof fn lemma_window(ds: Seq<DailyView>, cutoff: i64, b: int, c: Seq<char>, q: ArxivView)
    ensures
        coll_has(ds.filter(keep_after(cutoff)), b, c, q) <==> (coll_has(ds, b, c, q) && b
            >= cutoff),
{
    let pred = keep_after(cutoff);
    let f = ds.filter(pred);
    if coll_has(f, b, c, q) {
        let w = choose|i: int|
            0 <= i < f.len() && #[trigger] f[i].datetime == b && cats_have(f[i].subjects, c, q);
        lemma_filter_member_of(ds, cutoff, w);
        ds.lemma_filter_pred(pred, w);
        let v = choose|k: int| 0 <= k < ds.len() && ds[k] == f[w];
        assert(ds[v].datetime == b && cats_have(ds[v].subjects, c, q));
        assert(coll_has(ds, b, c, q) && b >= cutoff);
    }
    if coll_has(ds, b, c, q) && b >= cutoff {
        let w = choose|i: int|
            0 <= i < ds.len() && #[trigger] ds[i].datetime == b && cats_have(ds[i].subjects, c, q);
        ds.lemma_filter_contains(pred, w);
        let v = choose|k: int| 0 <= k < f.len() && f[k] == ds[w];
        assert(f[v].datetime == b && cats_have(f[v].subjects, c, q));
        assert(coll_has(f, b, c, q));
    }
}

/// Every member of the retention sweep is a member of the store.
proof fn lemma_filter_member_of(ds: Seq<DailyView>, cutoff: i64, i: int)
    requires
        0 <= i < ds.filter(keep_after(cutoff)).len(),
    ensures
        ds.contains(ds.filter(keep_after(cutoff))[i]),
    decreases ds.len(),
{
    reveal(Seq::filter);
    let pred = keep_after(cutoff);
    let f = ds.filter(pred);
    if ds.len() == 0 {
    } else {
        let head = ds.drop_last();
        let hf = head.filter(pred);
        assert(forall|k: int| 0 <= k < head.len() ==> head[k] == ds[k]);
        if i < hf.len() {
            lemma_filter_member_of(head, cutoff, i);
            let w = choose|k: int| 0 <= k < head.len() && head[k] == hf[i];
            assert(hf[i] == f[i]);
            assert(ds[w] == f[i]);
        } else {
            assert(pred(ds.last()));
            assert(f[i] == ds.last());
            assert(ds[ds.len() - 1] == ds.last());
        }
    }
}

} // verus!
