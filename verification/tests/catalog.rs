use esindex_exporter::catalog::{cat_indices_url, join_patterns, parse_count, FetchError};
use esindex_exporter::elasticsearch::CatIndexResult;

fn patterns(items: &[&str]) -> Vec<String> {
    items.iter().map(|item| item.to_string()).collect()
}

#[test]
fn patterns_are_joined_by_commas() {
    assert_eq!(join_patterns(&patterns(&["*-alb-*", "logs-*", "x"])), "*-alb-*,logs-*,x");
    assert_eq!(join_patterns(&patterns(&["only"])), "only");
    assert_eq!(join_patterns(&patterns(&[])), "");
    assert_eq!(join_patterns(&patterns(&["", "a", ""])), ",a,");
}

#[test]
fn url_of_the_catalog_for_one_pattern() {
    let url = cat_indices_url("http://localhost:9200", &patterns(&["logs-*"])).unwrap();
    assert_eq!(url, "http://localhost:9200/_cat/indices/logs-*");
}

#[test]
fn url_of_the_catalog_for_several_patterns() {
    let url = cat_indices_url("https://es.example.net:9243/", &patterns(&["a-*", "b-*"])).unwrap();
    assert_eq!(url, "https://es.example.net:9243/_cat/indices/a-*,b-*");
}

#[test]
fn url_of_the_catalog_below_a_path() {
    let url = cat_indices_url("http://proxy.example.net/es/", &patterns(&["a-*"])).unwrap();
    assert_eq!(url, "http://proxy.example.net/es/_cat/indices/a-*");
    let url = cat_indices_url("http://proxy.example.net/es", &patterns(&["a-*"])).unwrap();
    assert_eq!(url, "http://proxy.example.net/_cat/indices/a-*");
}

#[test]
fn base_url_that_is_none_is_refused() {
    let error = cat_indices_url("not a url", &patterns(&["a-*"])).unwrap_err();
    assert!(matches!(error, FetchError::InvalidUrl));
    let error = cat_indices_url("", &patterns(&["a-*"])).unwrap_err();
    assert!(matches!(error, FetchError::InvalidUrl));
}

#[test]
fn counts_are_decimal_digits() {
    assert_eq!(parse_count("0"), Some(0));
    assert_eq!(parse_count("7"), Some(7));
    assert_eq!(parse_count("12345"), Some(12345));
    assert_eq!(parse_count("000123"), Some(123));
    assert_eq!(parse_count("18446744073709551615"), Some(u64::MAX));
    assert_eq!(parse_count("00018446744073709551615"), Some(u64::MAX));
}

#[test]
fn what_is_no_count() {
    assert_eq!(parse_count(""), None);
    assert_eq!(parse_count("18446744073709551616"), None);
    assert_eq!(parse_count("99999999999999999999999"), None);
    assert_eq!(parse_count("-1"), None);
    assert_eq!(parse_count("+1"), None);
    assert_eq!(parse_count("1.5"), None);
    assert_eq!(parse_count("12kb"), None);
    assert_eq!(parse_count(" 12"), None);
    assert_eq!(parse_count("12 "), None);
    assert_eq!(parse_count("١٢"), None);
    assert_eq!(parse_count("null"), None);
}

#[test]
fn row_with_counts_is_read() {
    let row = CatIndexResult::from_catalog_row(
        "integration-alb-2024.01".to_string(),
        "10",
        "1",
        "1000",
        "600",
    )
    .unwrap();
    assert_eq!(row.index, "integration-alb-2024.01");
    assert_eq!(row.docs_count, 10);
    assert_eq!(row.docs_deleted, 1);
    assert_eq!(row.store_size, 1000);
    assert_eq!(row.pri_store_size, 600);
}

#[test]
fn row_names_the_first_field_that_is_no_count() {
    let field = |docs: &str, deleted: &str, store: &str, pri: &str| {
        match CatIndexResult::from_catalog_row("i".to_string(), docs, deleted, store, pri) {
            Err(FetchError::MalformedPayload(field)) => field,
            other => panic!("unexpected: {:?}", other),
        }
    };
    assert_eq!(field("x", "x", "x", "x"), "docs.count");
    assert_eq!(field("1", "", "x", "x"), "docs.deleted");
    assert_eq!(field("1", "2", "1kb", "x"), "store.size");
    assert_eq!(field("1", "2", "3", "-4"), "pri.store.size");
}
