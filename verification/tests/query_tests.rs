//! Tests of the query builder and the query string it produces.

use arxiv_daily::config::{Config, Source, Version};
use arxiv_daily::query::{source_query, ArxivQuery, ArxivQueryBuilder};

#[test]
fn builder_produces_the_full_query_string() {
    let query = ArxivQueryBuilder::new()
        .search_query("cat:cs.CL")
        .start(0)
        .max_results(100)
        .sort_by("lastUpdatedDate")
        .sort_order("descending")
        .build()
        .expect("search scope was set");
    assert_eq!(
        query.to_url(),
        "http://export.arxiv.org/api/query?search_query=cat:cs.CL&start=0&max_results=100&sortBy=lastUpdatedDate&sortOrder=descending"
    );
}

#[test]
fn build_fails_only_without_a_search_scope() {
    assert_eq!(ArxivQueryBuilder::new().start(0).build(), None);
    assert!(ArxivQueryBuilder::new().id_list("2301.00001").build().is_some());
    assert!(ArxivQueryBuilder::new().search_query("all:x").build().is_some());
}

#[test]
fn unset_parameters_are_left_out_of_the_url() {
    let query = ArxivQueryBuilder::new().search_query("all:x").build().expect("scope set");
    assert_eq!(query.to_url(), "http://export.arxiv.org/api/query?search_query=all:x");
}

#[test]
fn negative_numbers_render_with_a_minus() {
    let query = ArxivQueryBuilder::new()
        .search_query("all:x")
        .start(-5)
        .max_results(2147483647)
        .build()
        .expect("scope set");
    assert_eq!(
        query.to_url(),
        "http://export.arxiv.org/api/query?search_query=all:x&start=-5&max_results=2147483647"
    );
}

#[test]
fn smallest_offset_renders_correctly() {
    let query = ArxivQueryBuilder::new().search_query("all:x").start(i32::MIN).build().unwrap();
    assert_eq!(
        query.to_url(),
        "http://export.arxiv.org/api/query?search_query=all:x&start=-2147483648"
    );
}

#[test]
fn source_query_matches_the_run_parameters() {
    let q: ArxivQuery = source_query("cs.CL", 50);
    assert_eq!(q.base_url, "http://export.arxiv.org/api/query");
    assert_eq!(q.search_query, "cat:cs.CL");
    assert_eq!(q.id_list, "");
    assert_eq!(q.start, Some(0));
    assert_eq!(q.max_results, Some(50));
    assert_eq!(q.sort_by, "lastUpdatedDate");
    assert_eq!(q.sort_order, "descending");
}

#[test]
fn config_defaults_match_the_documented_values() {
    let c = Config::default();
    assert!(matches!(c.version, Version::V1));
    assert_eq!(c.limit_days, 1);
    assert_eq!(c.site_title, "arxiv_daily");
    assert_eq!(c.target_dir, "target");
    assert_eq!(c.statics_dir, "statics");
    assert_eq!(c.templates_dir, "includes");
    assert_eq!(c.proxy, None);
    assert_eq!(c.cache_url, None);
    assert_eq!(c.target_name, None);
    assert!(c.sources.is_empty());
    assert!(c.scripts.is_empty());
}

#[test]
fn sources_hold_their_fields() {
    let s = Source { limit: 25, title: "Computation and Language".to_string(), category: "cs.CL".to_string() };
    let q = source_query(&s.category, s.limit);
    assert_eq!(q.search_query, "cat:cs.CL");
    assert_eq!(q.max_results, Some(25));
}
