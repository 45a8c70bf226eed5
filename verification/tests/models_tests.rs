use oeis_tui::models::BFileEntry;
use oeis_tui::models::SearchQuery;
use oeis_tui::models::Sequence;
use oeis_tui::models::parse_sequence_values;

fn sample_sequence(number: i32) -> Sequence {
    Sequence {
        number,
        id: String::new(),
        data: String::new(),
        name: String::new(),
        offset: "0,1".to_string(),
        comment: vec![],
        reference: vec![],
        link: vec![],
        formula: vec![],
        example: vec![],
        maple: vec![],
        mathematica: vec![],
        program: vec![],
        xref: vec![],
        keyword: String::new(),
        author: String::new(),
        created: String::new(),
        time: String::new(),
        references: 0,
        revision: 0,
    }
}

#[test]
fn test_a_number() {
    let seq = sample_sequence(55);
    assert_eq!(seq.a_number(), "A000055");
}

#[test]
fn test_parse_data() {
    let mut seq = sample_sequence(45);
    seq.data = "1,1,2,3,5,8,13,21".to_string();
    seq.name = "Fibonacci sequence".to_string();
    seq.keyword = "nonn,easy".to_string();

    let data = seq.parse_data();
    assert_eq!(data, vec!["1", "1", "2", "3", "5", "8", "13", "21"]);
}

#[test]
fn test_bfile_parse() {
    let entry = BFileEntry::parse("0 1");
    assert!(entry.is_some());
    let entry = entry.unwrap();
    assert_eq!(entry.index, 0);
    assert_eq!(entry.value, "1");

    // Comment line
    assert!(BFileEntry::parse("# This is a comment").is_none());

    // Empty line
    assert!(BFileEntry::parse("").is_none());
}

#[test]
fn test_search_query() {
    let query = SearchQuery::new("fibonacci");
    assert_eq!(query.query, "fibonacci");
    assert_eq!(query.format, "json");
    assert_eq!(query.start, 0);

    let next = query.next_page(10);
    assert_eq!(next.start, 10);

    let prev = next.prev_page(10);
    assert_eq!(prev.start, 0);
}

#[test]
fn test_to_url_percent_encodes() {
    let query = SearchQuery::new("1,2 3");
    let url = query.to_url();
    assert_eq!(url, "https://oeis.org/search?q=1%2C2%203&fmt=json&start=0");
}

#[test]
fn test_to_url_page_offset() {
    let query = SearchQuery::new("prime").with_start(20);
    assert_eq!(query.to_url(), "https://oeis.org/search?q=prime&fmt=json&start=20");
}

#[test]
fn test_parse_offset_values() {
    let mut seq = sample_sequence(1);
    seq.offset = "0,5".to_string();
    assert_eq!(seq.parse_offset(), (0, 5));

    seq.offset = " 2 , 3 ".to_string();
    assert_eq!(seq.parse_offset(), (2, 3));

    seq.offset = "junk".to_string();
    assert_eq!(seq.parse_offset(), (0, 1));

    seq.offset = "7".to_string();
    assert_eq!(seq.parse_offset(), (7, 1));
}

#[test]
fn test_keywords_and_has_keyword() {
    let mut seq = sample_sequence(1);
    seq.keyword = "nonn, easy,core".to_string();
    assert_eq!(seq.keywords(), vec!["nonn", "easy", "core"]);
    assert!(seq.has_keyword("easy"));
    assert!(seq.has_keyword("nonn"));
    assert!(!seq.has_keyword("nice"));
}

#[test]
fn test_urls() {
    let seq = sample_sequence(45);
    assert_eq!(seq.url(), "https://oeis.org/A000045");
    assert_eq!(seq.b_file_url(), "https://oeis.org/b000045.txt");
}

#[test]
fn test_a_number_matches_fixed_width_format() {
    assert_eq!(sample_sequence(-5).a_number(), format!("A{:06}", -5));
    assert_eq!(sample_sequence(1234567).a_number(), format!("A{:06}", 1234567));
    assert_eq!(sample_sequence(0).a_number(), format!("A{:06}", 0));
}

#[test]
fn test_bfile_parse_extra_fields_and_bad_index() {
    let entry = BFileEntry::parse("  12 144 # trailing note  ").unwrap();
    assert_eq!(entry.index, 12);
    assert_eq!(entry.value, "144");

    assert!(BFileEntry::parse("x 1").is_none());
    assert!(BFileEntry::parse("5").is_none());
    assert!(BFileEntry::parse("-3 27").is_some());
}

#[test]
fn test_bfile_parse_lines() {
    let text = "# A000045 - Fibonacci numbers\n0 0\n1 1\n\nbad line\n2 1\n";
    let entries = BFileEntry::parse_lines(text);
    assert_eq!(entries.len(), 3);
    assert_eq!(entries[0].index, 0);
    assert_eq!(entries[0].value, "0");
    assert_eq!(entries[2].index, 2);
    assert_eq!(entries[2].value, "1");

    // carriage-return line endings are tolerated
    let entries = BFileEntry::parse_lines("0 5\r\n1 8\r\n");
    assert_eq!(entries.len(), 2);
    assert_eq!(entries[1].value, "8");

    assert!(BFileEntry::parse_lines("").is_empty());
}

#[test]
fn test_parse_sequence_values_trims_and_drops_empties() {
    let values = parse_sequence_values(" 1, 2 ,, 3 ,");
    assert_eq!(values, vec!["1", "2", "3"]);
}

#[test]
fn test_parse_search_terms_sorts_and_dedups() {
    let terms = oeis_tui::text::parse_search_terms("fibonacci numbers fibonacci");
    assert_eq!(terms, vec!["fibonacci", "fibonacci numbers fibonacci", "numbers"]);
}

#[test]
fn test_parse_search_terms_drops_colon_and_single_letters() {
    // field-prefixed tokens and lone letters are not display terms, but
    // the whole trimmed query always is
    let terms = oeis_tui::text::parse_search_terms("keyword:nice a 5");
    assert_eq!(terms, vec!["5", "keyword:nice a 5"]);
}

#[test]
fn test_parse_search_terms_splits_on_commas_and_semicolons() {
    let terms = oeis_tui::text::parse_search_terms("1,2;3");
    assert_eq!(terms, vec!["1", "1,2;3", "2", "3"]);
}

#[test]
fn test_parse_search_terms_empty_query() {
    let terms = oeis_tui::text::parse_search_terms("   ");
    assert!(terms.is_empty());
}

#[test]
fn test_find_anumbers() {
    // identifiers are found leftmost-first and do not overlap
    let spans = oeis_tui::text::find_anumbers("See A000045 and A000055.");
    assert_eq!(spans, vec![(4, 11), (16, 23)]);

    // a seventh digit is not part of the identifier, and short tails
    // do not match
    let spans = oeis_tui::text::find_anumbers("A0000457 A00004");
    assert_eq!(spans, vec![(0, 7)]);

    assert!(oeis_tui::text::find_anumbers("no references here").is_empty());
}
