//! Tests of the render view: bucket ordering and the stable revision sort.

use arxiv_daily::collection::{ArxivCategory, ArxivCollection, ArxivDaily};
use arxiv_daily::paper::Arxiv;
use arxiv_daily::render::ArxivRender;

fn paper(id: &str, updated: i64, published: i64) -> Arxiv {
    let mut p = Arxiv::new();
    p.id = id.to_string();
    p.updated = updated;
    p.published = published;
    p
}

fn render_of(raw: ArxivCollection) -> ArxivRender {
    ArxivRender::new(
        "site".to_string(),
        777,
        "arxiv_daily".to_string(),
        "0.1.0".to_string(),
        "https://example.org".to_string(),
        raw,
    )
}

#[test]
fn days_are_sorted_most_recent_first() {
    let mut coll = ArxivCollection::new();
    let subject = "AI".to_string();
    coll.insert(100, &subject, paper("a", 100, 100));
    coll.insert(300, &subject, paper("b", 300, 300));
    coll.insert(200, &subject, paper("c", 200, 200));
    let render = render_of(coll);
    let keys: Vec<i64> = render.days.iter().map(|d| d.datetime).collect();
    assert_eq!(keys, vec![300, 200, 100]);
    assert_eq!(render.site_title, "site");
    assert_eq!(render.build_time, 777);
}

#[test]
fn revision_sort_is_a_stable_partition() {
    // A, B, C fresh in that order, then D revised: the rendered order
    // keeps A, B, C and moves D behind them.
    let mut cat = ArxivCategory::single("AI".to_string(), paper("A", 10, 10));
    cat.add_paper(paper("B", 10, 10));
    cat.add_paper(paper("C", 10, 10));
    cat.add_paper(paper("D", 11, 10));
    cat.sort();
    let ids: Vec<&str> = cat.papers.iter().map(|p| p.id.as_str()).collect();
    assert_eq!(ids, vec!["A", "B", "C", "D"]);
}

#[test]
fn revised_paper_moves_behind_fresh_ones() {
    let mut cat = ArxivCategory::single("AI".to_string(), paper("D", 11, 10));
    cat.add_paper(paper("A", 10, 10));
    cat.add_paper(paper("B", 10, 10));
    cat.add_paper(paper("C", 10, 10));
    cat.sort();
    let ids: Vec<&str> = cat.papers.iter().map(|p| p.id.as_str()).collect();
    assert_eq!(ids, vec!["A", "B", "C", "D"]);
}

#[test]
fn render_sort_applies_to_every_bucket() {
    let mut coll = ArxivCollection::new();
    let subject = "AI".to_string();
    coll.insert(100, &subject, paper("revised", 100, 90));
    coll.insert(100, &subject, paper("fresh", 100, 100));
    let mut render = render_of(coll);
    render.sort();
    let ids: Vec<&str> = render.days[0].subjects[0].papers.iter().map(|p| p.id.as_str()).collect();
    assert_eq!(ids, vec!["fresh", "revised"]);
}

#[test]
fn daily_sort_orders_each_category() {
    let mut day = ArxivDaily::new(
        5,
        vec![
            ArxivCategory::single("AI".to_string(), paper("r", 7, 6)),
            ArxivCategory::single("CL".to_string(), paper("f", 7, 7)),
        ],
    );
    day.subjects[0].add_paper(paper("f2", 7, 7));
    day.sort();
    assert_eq!(day.subjects[0].papers[0].id, "f2");
    assert_eq!(day.subjects[0].papers[1].id, "r");
    assert_eq!(day.subjects[1].papers[0].id, "f");
}
