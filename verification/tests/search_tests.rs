use oeis_tui::search::SequenceCategory;
use oeis_tui::search::body_is_null;
use oeis_tui::search::classify_failure_lower;
use oeis_tui::search::estimate_count;
use oeis_tui::search::extract_error_message;
use oeis_tui::search::fetch_greeting;
use oeis_tui::search::id_query;
use oeis_tui::search::parse_a_number;

#[test]
fn test_category_display() {
    assert_eq!(SequenceCategory::Best.as_str(), "Best Sequences");
    assert_eq!(
        SequenceCategory::NeedingTerms.as_str(),
        "Sequences Needing More Terms"
    );
}

#[test]
fn test_category_queries() {
    assert_eq!(SequenceCategory::Best.query().query, "keyword:nice");
    assert_eq!(SequenceCategory::NeedingTerms.query().query, "keyword:more");
    assert_eq!(SequenceCategory::Recent.query().query, "keyword:new");
    assert_eq!(SequenceCategory::all().len(), 4);
}

#[test]
fn test_estimate_count() {
    // a full page hints that many more results exist
    assert_eq!(estimate_count(10, 10), 100);
    // a short page is exact
    assert_eq!(estimate_count(3, 10), 3);
    assert_eq!(estimate_count(0, 10), 0);
}

#[test]
fn test_error_classification_lowercases_input() {
    assert_eq!(
        extract_error_message("Sorry: TOO MANY to show you here."),
        "Too many results. Please narrow your search."
    );
    assert_eq!(
        extract_error_message("There were NO RESULTS for that."),
        "No results found."
    );
    assert_eq!(extract_error_message("<html>garbage</html>"), "Unable to parse OEIS response");
}

#[test]
fn test_classify_failure_lower() {
    assert_eq!(
        classify_failure_lower("please refine your search"),
        "Too many results. Please narrow your search."
    );
    assert_eq!(
        classify_failure_lower("sorry, but the terms do not match anything"),
        "No results found."
    );
}

#[test]
fn test_parse_a_number() {
    assert_eq!(parse_a_number("A000045"), Some(45));
    assert_eq!(parse_a_number("45"), Some(45));
    assert_eq!(parse_a_number("a000055"), Some(55));
    assert_eq!(parse_a_number("abc"), None);
    assert_eq!(parse_a_number(""), None);
}

#[test]
fn test_id_query() {
    let query = id_query(45);
    assert_eq!(query.query, "id:A000045");
    assert_eq!(query.format, "json");
    assert_eq!(query.start, 0);
}

#[test]
fn test_body_is_null() {
    assert!(body_is_null("null"));
    assert!(body_is_null("  null\n"));
    assert!(!body_is_null("[]"));
    assert!(!body_is_null("nullable"));
}

#[test]
fn test_greeting() {
    let greeting = fetch_greeting();
    assert!(greeting.contains("On-Line Encyclopedia of Integer Sequences"));
    assert!(greeting.contains("https://oeis.org"));
}
