//! End-to-end tests of the feed parser, through the real XML reader and
//! timestamp parser.

use arxiv_daily::events::FeedEvent;
use arxiv_daily::paper::Arxiv;
use arxiv_daily::parser::{parse_data, parse_events, pdf_rewrite, FeedError};

const FEED: &str = r#"<?xml version="1.0" encoding="UTF-8"?>
<feed xmlns="http://www.w3.org/2005/Atom">
  <title>ArXiv Query results</title>
  <entry>
    <id>http://arxiv.org/abs/2301.00001v1</id>
    <updated>2023-01-02T03:04:05Z</updated>
    <published>2023-01-01T00:00:00Z</published>
    <title>A Study of Things</title>
    <summary>We study things.</summary>
    <author>
      <name>Alice Author</name>
    </author>
    <author>
      <name>Bob Builder</name>
    </author>
    <link title="pdf" href="http://arxiv.org/pdf/2301.00001v1" rel="related"/>
    <comment>12 pages</comment>
  </entry>
</feed>"#;

// seconds since the Unix epoch for 2023-01-02T03:04:05Z and 2023-01-01T00:00:00Z
const UPDATED_EPOCH: i64 = 1672628645;
const PUBLISHED_EPOCH: i64 = 1672531200;

#[test]
fn parse_minimal_feed_round_trip() {
    let papers = parse_data(FEED).expect("well-formed feed parses");
    assert_eq!(papers.len(), 1);
    let p = &papers[0];
    assert_eq!(p.id, "http://arxiv.org/abs/2301.00001v1");
    assert_eq!(p.updated, UPDATED_EPOCH);
    assert_eq!(p.published, PUBLISHED_EPOCH);
    assert_eq!(p.title, "A Study of Things");
    assert_eq!(p.summary, "We study things.");
    assert_eq!(p.authors, vec!["Alice Author".to_string(), "Bob Builder".to_string()]);
    assert_eq!(p.pdf_url, "https://arxiv.org/pdf/2301.00001v1.pdf");
    assert_eq!(p.comment, Some("12 pages".to_string()));
}

#[test]
fn equal_documents_parse_equally() {
    let copy = String::from(FEED);
    assert_eq!(parse_data(FEED), parse_data(&copy));
}

#[test]
fn parse_stops_at_feed_end() {
    let with_trailing = format!("{}{}", FEED, "<trailing>garbage that is not even XML");
    let a = parse_data(FEED).expect("plain feed parses");
    let b = parse_data(&with_trailing).expect("trailing content is never read");
    assert_eq!(a, b);
}

#[test]
fn malformed_updated_fails_whole_parse() {
    let bad = FEED.replace("2023-01-02T03:04:05Z", "not-a-date");
    let r = parse_data(&bad);
    assert_eq!(r, Err(FeedError::BadTimestamp));
}

#[test]
fn malformed_published_fails_whole_parse() {
    let bad = FEED.replace("2023-01-01T00:00:00Z", "not-a-date");
    assert_eq!(parse_data(&bad), Err(FeedError::BadTimestamp));
}

#[test]
fn malformed_xml_fails_whole_parse() {
    let r = parse_data("<feed><entry></fed>");
    assert!(matches!(r, Err(FeedError::Xml { .. })));
}

#[test]
fn truncated_document_fails() {
    let r = parse_data("<feed><entry><id>x</id>");
    assert!(matches!(
        r,
        Err(FeedError::Truncated) | Err(FeedError::Xml { .. })
    ));
}

#[test]
fn entry_without_fields_yields_empty_record() {
    let papers = parse_data("<feed><entry></entry></feed>").expect("parses");
    assert_eq!(papers.len(), 1);
    assert_eq!(papers[0].id, "");
    assert_eq!(papers[0].updated, 0);
    assert_eq!(papers[0].authors.len(), 0);
    assert_eq!(papers[0].comment, None);
}

#[test]
fn non_pdf_links_are_ignored() {
    let feed = r#"<feed><entry><link title="doi" rel="related" href="http://doi.org/x"/></entry></feed>"#;
    let papers = parse_data(feed).expect("parses");
    assert_eq!(papers.len(), 1);
    assert_eq!(papers[0].pdf_url, "");
}

#[test]
fn unknown_elements_are_ignored() {
    let feed = "<feed><entry><id>a</id><junk>text</junk></entry></feed>";
    let papers = parse_data(feed).expect("parses");
    assert_eq!(papers.len(), 1);
    assert_eq!(papers[0].id, "a");
}

#[test]
fn two_entries_in_document_order() {
    let feed = "<feed><entry><id>a</id></entry><entry><id>b</id></entry></feed>";
    let papers = parse_data(feed).expect("parses");
    assert_eq!(papers.len(), 2);
    assert_eq!(papers[0].id, "a");
    assert_eq!(papers[1].id, "b");
}

#[test]
fn parse_events_empty_is_truncated() {
    let events: Vec<FeedEvent> = Vec::new();
    assert_eq!(parse_events(&events), Err(FeedError::Truncated));
}

#[test]
fn parse_events_end_feed_alone_finishes_empty() {
    let events = vec![FeedEvent::End { name: "feed".to_string() }];
    let papers = parse_events(&events).expect("finishes at feed end");
    assert_eq!(papers, Vec::<Arxiv>::new());
}

#[test]
fn pdf_rewrite_secures_scheme_and_appends_suffix() {
    assert_eq!(pdf_rewrite("http://arxiv.org/pdf/1"), "https://arxiv.org/pdf/1.pdf");
}

#[test]
fn pdf_rewrite_replaces_only_first_occurrence() {
    assert_eq!(
        pdf_rewrite("http://x/http"),
        "https://x/http.pdf"
    );
}

#[test]
fn pdf_rewrite_mid_string_occurrence() {
    assert_eq!(pdf_rewrite("xhttpy"), "xhttpsy.pdf");
}

#[test]
fn pdf_rewrite_without_occurrence_only_appends() {
    assert_eq!(pdf_rewrite("ftp://x"), "ftp://x.pdf");
    assert_eq!(pdf_rewrite(""), ".pdf");
    assert_eq!(pdf_rewrite("htt"), "htt.pdf");
}
