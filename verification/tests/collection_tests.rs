//! Tests of the collection store: deduplication, retention, and merging.

use arxiv_daily::collection::{ArxivCategory, ArxivCollection, ArxivDaily};
use arxiv_daily::engine::{ingest_papers, window_cutoff};
use arxiv_daily::paper::Arxiv;

fn paper(id: &str, updated: i64, published: i64) -> Arxiv {
    let mut p = Arxiv::new();
    p.id = id.to_string();
    p.updated = updated;
    p.published = published;
    p.title = format!("title of {}", id);
    p.summary = "a summary".to_string();
    p.authors = vec!["Ann".to_string()];
    p.pdf_url = "https://arxiv.org/pdf/x.pdf".to_string();
    p
}

const DAY: i64 = 86400;

#[test]
fn insert_same_paper_twice_is_a_no_op() {
    let mut coll = ArxivCollection::new();
    let subject = "AI".to_string();
    coll.insert(100, &subject, paper("a", 100, 100));
    coll.insert(100, &subject, paper("a", 100, 100));
    assert_eq!(coll.days.len(), 1);
    assert_eq!(coll.days[0].subjects.len(), 1);
    assert_eq!(coll.days[0].subjects[0].papers.len(), 1);
}

#[test]
fn changed_field_makes_a_distinct_record() {
    let mut coll = ArxivCollection::new();
    let subject = "AI".to_string();
    let mut changed = paper("a", 100, 100);
    changed.summary = "revised abstract".to_string();
    coll.insert(100, &subject, paper("a", 100, 100));
    coll.insert(100, &subject, changed);
    assert_eq!(coll.days[0].subjects[0].papers.len(), 2);
}

#[test]
fn insertion_order_of_first_occurrence_is_kept() {
    let mut coll = ArxivCollection::new();
    let subject = "AI".to_string();
    coll.insert(100, &subject, paper("a", 100, 100));
    coll.insert(100, &subject, paper("b", 100, 100));
    coll.insert(100, &subject, paper("a", 100, 100));
    let papers = &coll.days[0].subjects[0].papers;
    assert_eq!(papers.len(), 2);
    assert_eq!(papers[0].id, "a");
    assert_eq!(papers[1].id, "b");
}

#[test]
fn buckets_and_categories_group_independently() {
    let mut coll = ArxivCollection::new();
    let ai = "AI".to_string();
    let cl = "CL".to_string();
    coll.insert(100, &ai, paper("a", 100, 100));
    coll.insert(100, &cl, paper("a", 100, 100));
    coll.insert(200, &ai, paper("a", 100, 100));
    assert_eq!(coll.days.len(), 2);
    assert_eq!(coll.days[0].datetime, 100);
    assert_eq!(coll.days[0].subjects.len(), 2);
    assert_eq!(coll.days[1].datetime, 200);
}

#[test]
fn window_cutoff_floors_days_at_one() {
    assert_eq!(window_cutoff(1000 * DAY, 3), 997 * DAY);
    assert_eq!(window_cutoff(1000 * DAY, 0), 999 * DAY);
    assert_eq!(window_cutoff(1000 * DAY, -7), 999 * DAY);
}

#[test]
fn window_keeps_recent_and_drops_old() {
    let now = 1000 * DAY;
    let n = 3;
    let cutoff = window_cutoff(now, n);
    let mut coll = ArxivCollection::new();
    let subject = "AI".to_string();
    let too_old = paper("old", now - (n + 1) * DAY, now - (n + 1) * DAY);
    let recent = paper("new", now - (n - 1) * DAY, now - (n - 1) * DAY);
    ingest_papers(&mut coll, &subject, vec![too_old, recent], cutoff);
    assert_eq!(coll.days.len(), 1);
    assert_eq!(coll.days[0].datetime, now - (n - 1) * DAY);
    assert_eq!(coll.days[0].subjects[0].papers[0].id, "new");
}

#[test]
fn retention_sweep_drops_aged_snapshot_buckets() {
    let now = 1000 * DAY;
    let cutoff = window_cutoff(now, 3);
    let mut coll = ArxivCollection::new();
    let subject = "AI".to_string();
    // buckets as a loaded snapshot would seed them, before the sweep
    coll.insert(now - 10 * DAY, &subject, paper("old", now - 10 * DAY, now - 10 * DAY));
    coll.insert(now - DAY, &subject, paper("new", now - DAY, now - DAY));
    coll.retain_recent(cutoff);
    assert_eq!(coll.days.len(), 1);
    assert_eq!(coll.days[0].datetime, now - DAY);
}

#[test]
fn stale_paper_survives_only_under_an_in_window_seed_bucket() {
    // The window drops a bucket by its time key, not by the papers in it:
    // a snapshot that filed a stale paper under a recent key keeps it.
    // Snapshots written by this system key every bucket by the paper's own
    // update time, so they never hold such an entry.
    let now = 1000 * DAY;
    let cutoff = window_cutoff(now, 3);
    let subject = "AI".to_string();
    let stale = paper("stale", now - 10 * DAY, now - 10 * DAY);
    let mut seeded = ArxivCollection::new();
    seeded.insert(now - DAY, &subject, stale.clone());
    ingest_papers(&mut seeded, &subject, vec![stale.clone()], cutoff);
    seeded.retain_recent(cutoff);
    assert_eq!(seeded.days.len(), 1);
    assert_eq!(seeded.days[0].datetime, now - DAY);
    assert_eq!(seeded.days[0].subjects[0].papers[0].id, "stale");

    // seeded as the system itself writes snapshots, the same paper is gone
    let mut own = ArxivCollection::new();
    own.insert(stale.updated, &subject, stale.clone());
    ingest_papers(&mut own, &subject, vec![stale], cutoff);
    own.retain_recent(cutoff);
    assert!(own.days.is_empty());
}

#[test]
fn merge_orders_give_identical_membership() {
    let subject = "AI".to_string();
    let other = "CL".to_string();
    // a snapshot with two buckets
    let mut snapshot = ArxivCollection::new();
    snapshot.insert(100, &subject, paper("s1", 100, 100));
    snapshot.insert(200, &other, paper("s2", 200, 200));
    // freshly fetched records, one of them already in the snapshot
    let fresh = vec![paper("s1", 100, 100), paper("f1", 200, 200)];

    // snapshot first, then the fetched set one record at a time
    let mut a = ArxivCollection::new();
    a.merge_from(&snapshot);
    for p in &fresh {
        a.insert(p.updated, &subject, p.clone());
    }

    // pre-seeded store, entries folded in one at a time
    let mut b = ArxivCollection::new();
    b.insert(100, &subject, paper("s1", 100, 100));
    b.insert(200, &other, paper("s2", 200, 200));
    for p in &fresh {
        b.insert(p.updated, &subject, p.clone());
    }

    assert_eq!(a, b);
}

#[test]
fn merge_from_deduplicates_against_existing_entries() {
    let subject = "AI".to_string();
    let mut base = ArxivCollection::new();
    base.insert(100, &subject, paper("a", 100, 100));
    let mut incoming = ArxivCollection::new();
    incoming.insert(100, &subject, paper("a", 100, 100));
    incoming.insert(100, &subject, paper("b", 100, 100));
    base.merge_from(&incoming);
    let papers = &base.days[0].subjects[0].papers;
    assert_eq!(papers.len(), 2);
    assert_eq!(papers[0].id, "a");
    assert_eq!(papers[1].id, "b");
}

#[test]
fn daily_constructor_keeps_fields() {
    let day = ArxivDaily::new(42, vec![ArxivCategory::single("AI".to_string(), paper("a", 1, 1))]);
    assert_eq!(day.datetime, 42);
    assert_eq!(day.subjects.len(), 1);
    assert_eq!(day.subjects[0].subject, "AI");
    assert_eq!(day.subjects[0].papers.len(), 1);
}
