//! The merge engine's decisions for one run: the retention cutoff, and
//! the windowed insertion of freshly fetched papers.
//!
//! Fetching the feed text, reading the prior snapshot and persisting the
//! merged result are outside concerns; this module works on the values
//! they hand over. A paper outside the window is discarded at insertion
//! time, and [`crate::collection::ArxivCollection::retain_recent`] makes
//! the final sweep over buckets that came in with the loaded snapshot.

use vstd::prelude::*;

use crate::collection::{
    ArxivCollection, DailyView, coll_has, days_insert, days_wf, keep_after, lemma_window,
};
use crate::paper::{Arxiv, ArxivView};

verus! {

/// The window in days that one run retains: at least one, whatever the
/// configuration says.
pub open spec fn spec_window_days(limit_days: i64) -> int {
    if limit_days < 1 {
        1int
    } else {
        limit_days as int
    }
}

/// The oldest update time (seconds since the Unix epoch) that stays in
/// the window: `now` minus the window, the window being `limit_days`
/// days floored at one day.
pub fn window_cutoff(now: i64, limit_days: i64) -> (r: i64)
    requires
        spec_window_days(limit_days) * 86400 <= i64::MAX as int,
        now - spec_window_days(limit_days) * 86400 >= i64::MIN as int,
    ensures
        r as int == now - spec_window_days(limit_days) * 86400,
{
    let days: i64 = if limit_days < 1 {
        1
    } else {
        limit_days
    };
    now - days * 86400
}

/// The store after the windowed ingest of fetched papers in order: each
/// paper whose update time is at or after the cutoff is filed under that
/// update time, the rest leave no trace.
pub open spec fn days_ingest(
    ds: Seq<DailyView>,
    title: Seq<char>,
    ps: Seq<ArxivView>,
    cutoff: int,
) -> Seq<DailyView>
    decreases ps.len(),
{
    if ps.len() == 0 {
        ds
    } else {
        let next = if ps[0].updated >= cutoff {
            days_insert(ds, ps[0].updated, title, ps[0])
        } else {
            ds
        };
        days_ingest(next, title, ps.skip(1), cutoff)
    }
}

/// Files every fetched paper whose update time is at or after `cutoff`
/// into the store, keyed by that update time and the source's title;
/// papers older than the cutoff are discarded here and never inserted.
pub fn ingest_papers(coll: &mut ArxivCollection, title: &String, papers: Vec<Arxiv>, cutoff: i64)
    ensures
        final(coll)@ == days_ingest(old(coll)@, title@, papers.deep_view(), cutoff as int),
        days_wf(old(coll)@) ==> days_wf(final(coll)@),
        forall|b: int, c: Seq<char>, q: ArxivView|
            #[trigger] coll_has(final(coll)@, b, c, q) <==> (coll_has(old(coll)@, b, c, q) || (c
                == title@ && papers.deep_view().contains(q) && q.updated == b && b
                >= cutoff as int)),
{
    let ghost orig = coll@;
    let ghost pv = papers.deep_view();
    let mut k: usize = 0;
    proof {
        assert(pv.take(0) =~= Seq::<ArxivView>::empty());
        assert(pv.skip(0) =~= pv);
    }
    while k < papers.len()
        invariant
            k <= papers.len(),
            pv == papers.deep_view(),
            pv.len() == papers@.len(),
            days_wf(orig) ==> days_wf(coll@),
            days_ingest(coll@, title@, pv.skip(k as int), cutoff as int) == days_ingest(
                orig,
                title@,
                pv,
                cutoff as int,
            ),
            forall|b: int, c: Seq<char>, q: ArxivView|
                #[trigger] coll_has(coll@, b, c, q) <==> (coll_has(orig, b, c, q) || (c == title@
                    && pv.take(k as int).contains(q) && q.updated == b && b >= cutoff as int)),
        decreases papers.len() - k,
    {
        let ghost prev = coll@;
        proof {
            assert(pv[k as int] == papers@[k as int]@);
            assert(pv.skip(k as int)[0] == pv[k as int]);
            assert(pv.skip(k as int).skip(1) =~= pv.skip(k + 1int));
        }
        let date = papers[k].updated;
        if date >= cutoff {
            let p = papers[k].duplicate();
            coll.insert(date, title, p);
        }
        proof {
            assert(pv[k as int].updated == date as int);
            assert(days_ingest(prev, title@, pv.skip(k as int), cutoff as int) == days_ingest(
                coll@,
                title@,
                pv.skip(k + 1int),
                cutoff as int,
            ));
            assert(pv.take(k + 1int) =~= pv.take(k as int).push(pv[k as int]));
            assert forall|b: int, c: Seq<char>, q: ArxivView|
                #[trigger] coll_has(coll@, b, c, q) <==> (coll_has(orig, b, c, q) || (c == title@
                    && pv.take(k + 1int).contains(q) && q.updated == b && b >= cutoff as int)) by {
                crate::collection::lemma_contains_push(pv.take(k as int), pv[k as int], q);
                if date >= cutoff {
                    crate::collection::lemma_insert_membership(
                        prev,
                        date as int,
                        title@,
                        pv[k as int],
                        b,
                        c,
                        q,
                    );
                }
            }
        }
        k = k + 1;
    }
    proof {
        assert(pv.take(papers@.len() as int) =~= pv);
        assert(pv.skip(papers@.len() as int) =~= Seq::<ArxivView>::empty());
    }
}

/// Window correctness over one run. `merged` is a store whose membership
/// is the seeded snapshot's plus the fetched papers within the window,
/// which is what [`ingest_papers`] leaves behind; the retention sweep of
/// `merged` then holds a fetched paper updated at or after the cutoff
/// under its own update time, and holds a paper updated before the cutoff
/// nowhere — provided the loaded snapshot did not already hold that paper
/// under some in-window time key, the one way such a paper can outlive
/// the sweep.
pub proof fn lemma_run_window(
    seed: Seq<DailyView>,
    merged: Seq<DailyView>,
    title: Seq<char>,
    fetched: Seq<ArxivView>,
    cutoff: i64,
    q: ArxivView,
)
    requires
        forall|b: int, c: Seq<char>, qq: ArxivView|
            #[trigger] coll_has(merged, b, c, qq) <==> (coll_has(seed, b, c, qq) || (c == title
                && fetched.contains(qq) && qq.updated == b && b >= cutoff as int)),
    ensures
        fetched.contains(q) && q.updated >= cutoff as int ==> coll_has(
            merged.filter(keep_after(cutoff)),
            q.updated,
            title,
            q,
        ),
        (q.updated < cutoff as int && (forall|b: int, c: Seq<char>| !coll_has(seed, b, c, q)))
            ==> (forall|b: int, c: Seq<char>| !coll_has(merged.filter(keep_after(cutoff)), b, c, q)),
{
    let swept = merged.filter(keep_after(cutoff));
    if fetched.contains(q) && q.updated >= cutoff as int {
        assert(coll_has(merged, q.updated, title, q));
        lemma_window(merged, cutoff, q.updated, title, q);
    }
    if q.updated < cutoff as int && (forall|b: int, c: Seq<char>| !coll_has(seed, b, c, q)) {
        assert forall|b: int, c: Seq<char>| !coll_has(swept, b, c, q) by {
            lemma_window(merged, cutoff, b, c, q);
            if coll_has(swept, b, c, q) {
                assert(coll_has(merged, b, c, q) && b >= cutoff as int);
                assert(!coll_has(seed, b, c, q));
            }
        }
    }
}

} // verus!
