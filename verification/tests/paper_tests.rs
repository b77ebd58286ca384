//! Tests of the paper record and its structural equality.

use arxiv_daily::paper::{arxiv_eq, str_eq, string_vecs_eq, Arxiv};

#[test]
fn new_record_is_empty() {
    let p = Arxiv::new();
    assert_eq!(p.id, "");
    assert_eq!(p.updated, 0);
    assert_eq!(p.published, 0);
    assert_eq!(p.title, "");
    assert_eq!(p.summary, "");
    assert!(p.authors.is_empty());
    assert_eq!(p.pdf_url, "");
    assert_eq!(p.comment, None);
}

#[test]
fn duplicate_copies_every_field() {
    let mut p = Arxiv::new();
    p.id = "abs/1".to_string();
    p.updated = 5;
    p.published = 4;
    p.title = "t".to_string();
    p.summary = "s".to_string();
    p.authors = vec!["a".to_string(), "b".to_string()];
    p.pdf_url = "u".to_string();
    p.comment = Some("c".to_string());
    let q = p.duplicate();
    assert_eq!(p, q);
    assert!(arxiv_eq(&p, &q));
}

#[test]
fn equality_is_structural_over_every_field() {
    let mut p = Arxiv::new();
    p.id = "abs/1".to_string();
    let q = p.duplicate();
    assert!(arxiv_eq(&p, &q));
    let mut r = p.duplicate();
    r.comment = Some(String::new());
    assert!(!arxiv_eq(&p, &r));
    let mut s = p.duplicate();
    s.authors.push("extra".to_string());
    assert!(!arxiv_eq(&p, &s));
    let mut t = p.duplicate();
    t.updated = 1;
    assert!(!arxiv_eq(&p, &t));
}

#[test]
fn string_helpers_compare_by_value() {
    assert!(str_eq("caf\u{e9}", "caf\u{e9}"));
    assert!(!str_eq("a", "b"));
    assert!(!str_eq("a", "ab"));
    assert!(string_vecs_eq(&vec!["x".to_string()], &vec!["x".to_string()]));
    assert!(!string_vecs_eq(&vec!["x".to_string()], &vec!["y".to_string()]));
    assert!(!string_vecs_eq(&vec![], &vec!["y".to_string()]));
}
