//! The render view: the collection flattened and sorted for presentation.
//!
//! Buckets are ordered by time key, most recent first. Within a category,
//! papers that were revised after publication are moved behind the freshly
//! published ones, each side keeping its relative input order: a stable
//! partition on "has been updated after publication".

use vstd::prelude::*;

use crate::collection::{ArxivCategory, ArxivCollection, ArxivDaily, CategoryView, DailyView};
use crate::paper::{Arxiv, ArxivView};

verus! {

/// Whether a paper was revised after it was published.
pub open spec fn revised() -> spec_fn(ArxivView) -> bool {
    |p: ArxivView| p.updated != p.published
}

/// Whether a paper is freshly published: not revised since.
pub open spec fn fresh() -> spec_fn(ArxivView) -> bool {
    |p: ArxivView| p.updated == p.published
}

/// A category's papers after the presentation sort: the fresh ones in
/// input order, then the revised ones in input order.
pub open spec fn cat_sorted(c: CategoryView) -> CategoryView {
    CategoryView { subject: c.subject, papers: c.papers.filter(fresh()) + c.papers.filter(revised()) }
}

/// A bucket after the presentation sort of each of its groups.
pub open spec fn day_sorted(d: DailyView) -> DailyView {
    DailyView { datetime: d.datetime, subjects: d.subjects.map_values(|c: CategoryView| cat_sorted(c)) }
}

/// Whether the buckets run from the most recent time key down.
pub open spec fn sorted_desc(ds: Seq<DailyView>) -> bool {
    forall|i: int, j: int| 0 <= i < j < ds.len() ==> ds[i].datetime >= ds[j].datetime
}

impl ArxivCategory {
    /// Orders the group's papers by the two-way revision key, stably:
    /// fresh papers keep their order and come first, revised papers keep
    /// their order and follow.
    pub fn sort(&mut self)
        ensures
            final(self)@.subject == old(self)@.subject,
            final(self)@.papers == old(self)@.papers.filter(fresh()) + old(self)@.papers.filter(
                revised(),
            ),
    {
        let ghost dv = self.papers.deep_view();
        let mut out: Vec<Arxiv> = Vec::new();
        let mut i: usize = 0;
        proof {
            assert(dv.take(0) =~= Seq::<ArxivView>::empty());
            reveal(Seq::filter);
            assert(out.deep_view() =~= dv.take(0).filter(fresh()));
        }
        while i < self.papers.len()
            invariant
                i <= self.papers.len(),
                dv == self.papers.deep_view(),
                dv.len() == self.papers@.len(),
                out.deep_view() == dv.take(i as int).filter(fresh()),
            decreases self.papers.len() - i,
        {
            let ghost ov = out.deep_view();
            proof {
                assert(dv[i as int] == self.papers@[i as int]@);
                assert(dv.take(i + 1int) =~= dv.take(i as int).push(dv[i as int]));
                assert(dv.take(i + 1int).drop_last() =~= dv.take(i as int));
                reveal(Seq::filter);
            }
            if self.papers[i].updated == self.papers[i].published {
                out.push(self.papers[i].duplicate());
                proof {
                    assert(out.deep_view() =~= ov.push(dv[i as int]));
                    assert(out.deep_view() =~= dv.take(i + 1int).filter(fresh()));
                }
            } else {
                proof {
                    assert(out.deep_view() =~= dv.take(i + 1int).filter(fresh()));
                }
            }
            i = i + 1;
        }
        proof {
            assert(dv.take(dv.len() as int) =~= dv);
        }
        let mut i: usize = 0;
        while i < self.papers.len()
            invariant
                i <= self.papers.len(),
                dv == self.papers.deep_view(),
                dv.len() == self.papers@.len(),
                out.deep_view() == dv.filter(fresh()) + dv.take(i as int).filter(revised()),
            decreases self.papers.len() - i,
        {
            let ghost ov = out.deep_view();
            proof {
                assert(dv[i as int] == self.papers@[i as int]@);
                assert(dv.take(i + 1int) =~= dv.take(i as int).push(dv[i as int]));
                assert(dv.take(i + 1int).drop_last() =~= dv.take(i as int));
                reveal(Seq::filter);
            }
            if self.papers[i].updated != self.papers[i].published {
                out.push(self.papers[i].duplicate());
                proof {
                    assert(out.deep_view() =~= ov.push(dv[i as int]));
                    assert(out.deep_view() =~= dv.filter(fresh()) + dv.take(i + 1int).filter(
                        revised(),
                    ));
                }
            } else {
                proof {
                    assert(out.deep_view() =~= dv.filter(fresh()) + dv.take(i + 1int).filter(
                        revised(),
                    ));
                }
            }
            i = i + 1;
        }
        proof {
            assert(dv.take(dv.len() as int) =~= dv);
        }
        self.papers = out;
    }
}

impl ArxivDaily {
    /// Applies the presentation sort to every group of this bucket.
    pub fn sort(&mut self)
        ensures
            final(self)@.datetime == old(self)@.datetime,
            final(self)@.subjects == old(self)@.subjects.map_values(
                |c: CategoryView| cat_sorted(c),
            ),
    {
        let ghost cs = self.subjects.deep_view();
        let mut i: usize = 0;
        while i < self.subjects.len()
            invariant
                i <= self.subjects.len(),
                self.subjects@.len() == cs.len(),
                self.subjects.deep_view().len() == cs.len(),
                forall|j: int| i <= j < cs.len() ==> self.subjects.deep_view()[j] == cs[j],
                forall|j: int| 0 <= j < i ==> self.subjects.deep_view()[j] == cat_sorted(cs[j]),
                self.datetime == old(self).datetime,
            decreases self.subjects.len() - i,
        {
            let ghost before = self.subjects.deep_view();
            let mut cat = self.subjects.remove(i);
            proof {
                assert(before[i as int] == cs[i as int]);
            }
            cat.sort();
            proof {
                assert(cat@ == cat_sorted(cs[i as int]));
            }
            self.subjects.insert(i, cat);
            proof {
                assert(self.subjects.deep_view() =~= before.update(i as int, cat@));
            }
            i = i + 1;
        }
        proof {
            assert(self.subjects.deep_view() =~= cs.map_values(|c: CategoryView| cat_sorted(c)));
        }
    }
}

/// The fully materialized presentation tree: site and build metadata once,
/// then the sorted buckets.
#[derive(Clone, Debug, PartialEq, Eq)]
pub struct ArxivRender {
    pub site_title: String,
    pub build_time: i64,
    pub project_name: String,
    pub project_version: String,
    pub project_homepage: String,
    pub days: Vec<ArxivDaily>,
}

impl ArxivRender {
    /// Flattens a collection into the render tree, ordering buckets by
    /// time key, most recent first. The collection's buckets carry unique
    /// keys, so the order is fully determined.
    pub fn new(
        title: String,
        build_time: i64,
        project_name: String,
        project_version: String,
        project_homepage: String,
        raw: ArxivCollection,
    ) -> (r: ArxivRender)
        ensures
            r.site_title@ == title@,
            r.build_time == build_time,
            r.project_name@ == project_name@,
            r.project_version@ == project_version@,
            r.project_homepage@ == project_homepage@,
            r.days.deep_view().to_multiset() == raw@.to_multiset(),
            sorted_desc(r.days.deep_view()),
    {
        let mut days = raw.days;
        sort_days_desc(&mut days);
        ArxivRender {
            site_title: title,
            build_time,
            project_name,
            project_version,
            project_homepage,
            days,
        }
    }

    /// Applies the presentation sort to every bucket of the view.
    pub fn sort(&mut self)
        ensures
            final(self).days.deep_view() == old(self).days.deep_view().map_values(
                |d: DailyView| day_sorted(d),
            ),
            final(self).site_title == old(self).site_title,
            final(self).build_time == old(self).build_time,
            final(self).project_name == old(self).project_name,
            final(self).project_version == old(self).project_version,
            final(self).project_homepage == old(self).project_homepage,
    {
        let ghost ds = self.days.deep_view();
        let mut i: usize = 0;
        while i < self.days.len()
            invariant
                i <= self.days.len(),
                self.days@.len() == ds.len(),
                self.days.deep_view().len() == ds.len(),
                forall|j: int| i <= j < ds.len() ==> self.days.deep_view()[j] == ds[j],
                forall|j: int| 0 <= j < i ==> self.days.deep_view()[j] == day_sorted(ds[j]),
                self.site_title == old(self).site_title,
                self.build_time == old(self).build_time,
                self.project_name == old(self).project_name,
                self.project_version == old(self).project_version,
                self.project_homepage == old(self).project_homepage,
            decreases self.days.len() - i,
        {
            let ghost before = self.days.deep_view();
            let mut day = self.days.remove(i);
            proof {
                assert(before[i as int] == ds[i as int]);
            }
            day.sort();
            proof {
                assert(day@.subjects =~= day_sorted(ds[i as int]).subjects);
                assert(day@ =~= day_sorted(ds[i as int]));
            }
            self.days.insert(i, day);
            proof {
                assert(self.days.deep_view() =~= before.update(i as int, day@));
            }
            i = i + 1;
        }
        proof {
            assert(self.days.deep_view() =~= ds.map_values(|d: DailyView| day_sorted(d)));
        }
    }
}

/// Orders buckets by time key, most recent first, keeping exactly the
/// same buckets.
pub fn sort_days_desc(days: &mut Vec<ArxivDaily>)
    ensures
        final(days).deep_view().to_multiset() == old(days).deep_view().to_multiset(),
        sorted_desc(final(days).deep_view()),
{
    let ghost orig = days.deep_view();
    if days.len() <= 1 {
        return;
    }
    let mut i: usize = 1;
    while i < days.len()
        invariant
            1 <= i <= days@.len(),
            days.deep_view().len() == orig.len(),
            days@.len() == orig.len(),
            days.deep_view().to_multiset() == orig.to_multiset(),
            sorted_desc(days.deep_view().take(i as int)),
        decreases days.len() - i,
    {
        let ghost before = days.deep_view();
        let d = days.remove(i);
        let ghost dv = d@;
        proof {
            broadcast use vstd::seq_lib::group_to_multiset_ensures;

            assert(before[i as int] == dv);
            assert(days.deep_view() =~= before.remove(i as int));
            assert(days.deep_view().to_multiset() =~= before.to_multiset().remove(dv));
        }
        // find where the extracted bucket belongs in the sorted prefix
        let mut p: usize = 0;
        while p < i && days[p].datetime >= d.datetime
            invariant
                p <= i,
                i <= days@.len(),
                dv == d@,
                days.deep_view().len() == days@.len(),
                days.deep_view() == before.remove(i as int),
                forall|j: int| 0 <= j < p ==> #[trigger] days.deep_view()[j].datetime
                    >= dv.datetime,
            decreases i - p,
        {
            proof {
                assert(days.deep_view()[p as int] == days@[p as int]@);
                assert(days.deep_view()[p as int].datetime == days@[p as int].datetime as int);
                assert(dv.datetime == d.datetime as int);
                assert(days.deep_view()[p as int].datetime >= dv.datetime);
            }
            p = p + 1;
        }
        proof {
            if p < days.len() {
                assert(days.deep_view()[p as int] == days@[p as int]@);
                assert(days.deep_view()[p as int].datetime == days@[p as int].datetime as int);
            }
        }
        let ghost mid = days.deep_view();
        let ghost pp = p as int;
        days.insert(p, d);
        proof {
            broadcast use vstd::seq_lib::group_to_multiset_ensures;

            assert(days.deep_view() =~= mid.insert(pp, dv));
            lemma_insert_multiset(mid, pp, dv);
            assert(days.deep_view().to_multiset() =~= before.to_multiset().remove(dv).insert(dv));
            assert(before.to_multiset().count(dv) > 0);
            assert(days.deep_view().to_multiset() =~= before.to_multiset());
            // the prefix one longer is still sorted
            let now = days.deep_view();
            mid.insert_ensures(pp, dv);
            assert forall|x: int, y: int| 0 <= x < y < i + 1 implies now[x].datetime
                >= now[y].datetime by {
                assert(forall|k: int| 0 <= k < i ==> mid[k] == before[k]);
                if y < pp {
                } else if y == pp {
                    assert(now[x] == mid[x]);
                } else {
                    assert(now[y] == mid[y - 1]);
                    assert(!(mid[pp].datetime >= dv.datetime));
                    if x < pp {
                        assert(now[x] == mid[x]);
                        assert(mid[x].datetime >= mid[y - 1].datetime);
                    } else if x == pp {
                        assert(now[x] == dv);
                        assert(mid[pp].datetime <= dv.datetime);
                        assert(mid[pp].datetime >= mid[y - 1].datetime);
                    } else {
                        assert(now[x] == mid[x - 1]);
                        assert(mid[x - 1].datetime >= mid[y - 1].datetime);
                    }
                }
            }
            assert(sorted_desc(now.take(i + 1int)));
        }
        i = i + 1;
    }
    proof {
        assert(days.deep_view().take(days@.len() as int) =~= days.deep_view());
    }
}

/// Inserting an element into a sequence adds it to the multiset.
proof fn lemma_insert_multiset(s: Seq<DailyView>, p: int, v: DailyView)
    requires
        0 <= p <= s.len(),
    ensures
        s.insert(p, v).to_multiset() == s.to_multiset().insert(v),
{
    broadcast use vstd::seq_lib::group_to_multiset_ensures;

    let s2 = s.insert(p, v);
    assert(s2.remove(p) =~= s);
    assert(s2.to_multiset().remove(s2[p]) =~= s.to_multiset());
    assert(s2[p] == v);
    assert(s2.to_multiset().count(v) > 0) by {
        assert(s2.contains(v));
    }
    assert(s2.to_multiset() =~= s.to_multiset().insert(v)) by {
        assert(s2.to_multiset().remove(v).insert(v) =~= s2.to_multiset());
    }
}

} // verus!
