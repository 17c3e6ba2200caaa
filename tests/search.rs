use pinrs::query::{compile_query, join_with, BookmarkQuery};
use pinrs::search::{is_space_char, parse_search};

fn strings(v: &[&str]) -> Vec<String> {
    v.iter().map(|s| s.to_string()).collect()
}

#[test]
fn empty_search_has_no_tags_and_no_text() {
    let q = parse_search("");
    assert!(q.tag_names.is_empty());
    assert!(q.text.is_empty());
    let q = parse_search("  \t\n ");
    assert!(q.tag_names.is_empty());
    assert!(q.text.is_empty());
}

#[test]
fn search_splits_tags_from_text_in_order() {
    let q = parse_search("#audio namen  #video\tzeta");
    assert_eq!(q.tag_names, strings(&["audio", "video"]));
    assert_eq!(q.text, strings(&["namen", "zeta"]));
}

#[test]
fn search_keeps_case_and_inner_hashes() {
    let q = parse_search("#Rust a#b ##x #");
    assert_eq!(q.tag_names, strings(&["Rust", "#x", ""]));
    assert_eq!(q.text, strings(&["a#b"]));
}

#[test]
fn search_splits_on_unicode_white_space() {
    let q = parse_search("one\u{3000}#two\u{a0}three");
    assert_eq!(q.tag_names, strings(&["two"]));
    assert_eq!(q.text, strings(&["one", "three"]));
    assert!(is_space_char('\u{2003}'));
    assert!(!is_space_char('x'));
    assert!(!is_space_char('\u{200b}'));
}

#[test]
fn join_puts_separator_between_words_only() {
    assert_eq!(join_with(&strings(&[]), " "), "");
    assert_eq!(join_with(&strings(&["a"]), " "), "a");
    assert_eq!(join_with(&strings(&["a", "b", "c"]), ", "), "a, b, c");
}

#[test]
fn listing_defaults() {
    let plan = compile_query(&BookmarkQuery::new());
    assert!(plan.tag_names.is_empty());
    assert_eq!(plan.text, None);
    assert!(!plan.unread_only);
    assert_eq!(plan.limit, 100);
    assert_eq!(plan.offset, 0);
}

#[test]
fn listing_compiles_search_page_and_unread() {
    let query = BookmarkQuery {
        q: Some("#A zeta #B eta".to_string()),
        limit: Some(2),
        offset: Some(2),
        unread: Some("yes".to_string()),
    };
    let plan = compile_query(&query);
    assert_eq!(plan.tag_names, strings(&["A", "B"]));
    assert_eq!(plan.text, Some("zeta eta".to_string()));
    assert!(plan.unread_only);
    assert_eq!(plan.limit, 2);
    assert_eq!(plan.offset, 2);
}

#[test]
fn unread_flag_other_than_yes_is_ignored() {
    for flag in ["no", "Yes", "yes ", ""] {
        let query = BookmarkQuery {
            q: None,
            limit: None,
            offset: None,
            unread: Some(flag.to_string()),
        };
        assert!(!compile_query(&query).unread_only);
    }
}

#[test]
fn search_of_tags_only_has_no_text_filter() {
    let query = BookmarkQuery {
        q: Some("#A #B".to_string()),
        limit: None,
        offset: None,
        unread: None,
    };
    let plan = compile_query(&query);
    assert_eq!(plan.tag_names, strings(&["A", "B"]));
    assert_eq!(plan.text, None);
}
