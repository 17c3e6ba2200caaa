use pinrs::bookmark::{
    responses_from_rows, split_at_char, tag_response, BookmarkRequest, BookmarkResponse,
    BookmarkRow, TagRow,
};
use pinrs::repository::{check_response, Arguments, Command, LinkDing};
use pinrs::time::date_in_range;

fn row(id: i64, tags: Option<&str>, unread: Option<bool>) -> BookmarkRow {
    BookmarkRow {
        id,
        url: format!("https://example.test/{id}"),
        title: "A title".to_string(),
        description: Some("words".to_string()),
        notes: None,
        unread,
        tag_names: tags.map(|s| s.to_string()),
        date_added: 0,
        date_modified: 1704164645,
    }
}

#[test]
fn split_keeps_empty_pieces() {
    assert_eq!(split_at_char("a,,b", ','), vec!["a", "", "b"]);
    assert_eq!(split_at_char("", ','), vec![""]);
    assert_eq!(split_at_char("solo", ','), vec!["solo"]);
}

#[test]
fn row_becomes_response() {
    let r = BookmarkResponse::from_row(row(5, Some("A,B"), None));
    assert_eq!(r.id, 5);
    assert_eq!(r.url, "https://example.test/5");
    assert_eq!(r.title, "A title");
    assert_eq!(r.description, Some("words".to_string()));
    assert_eq!(r.notes, None);
    assert!(!r.unread);
    assert_eq!(r.tag_names, vec!["A", "B"]);
    assert_eq!(r.date_added, "1970-01-01T00:00:00+00:00");
    assert_eq!(r.date_modified, "2024-01-02T03:04:05+00:00");
}

#[test]
fn row_without_tags_has_none() {
    let r = BookmarkResponse::from_row(row(1, None, Some(true)));
    assert!(r.tag_names.is_empty());
    assert!(r.unread);
}

#[test]
fn rows_keep_their_order() {
    let rs = responses_from_rows(vec![row(3, None, None), row(2, Some("x"), None), row(1, None, None)]);
    let ids: Vec<i64> = rs.iter().map(|r| r.id).collect();
    assert_eq!(ids, vec![3, 2, 1]);
    assert_eq!(rs[1].tag_names, vec!["x"]);
}

#[test]
fn tag_row_becomes_response() {
    let t = tag_response(TagRow { id: 2, name: "rust".to_string(), date_added: 86400 });
    assert_eq!(t.id, 2);
    assert_eq!(t.name, "rust");
    assert_eq!(t.date_added, "1970-01-02T00:00:00+00:00");
}

#[test]
fn date_range_bounds() {
    assert!(date_in_range(0));
    assert!(date_in_range(8_000_000_000_000));
    assert!(date_in_range(-8_000_000_000_000));
    assert!(!date_in_range(8_000_000_000_001));
    assert!(!date_in_range(i64::MIN));
    let mut r = row(1, None, None);
    assert!(r.has_dates_in_range());
    r.date_modified = i64::MAX;
    assert!(!r.has_dates_in_range());
}

#[test]
fn check_of_unknown_url_has_no_bookmark() {
    let c = check_response("https://nowhere.test".to_string(), None);
    assert!(c.bookmark.is_none());
    assert_eq!(c.url, "https://nowhere.test");
    assert!(c.auto_tags.is_empty());
}

#[test]
fn check_of_known_url_has_the_bookmark() {
    let found = BookmarkResponse::from_row(row(9, Some("A"), None));
    let c = check_response("https://example.test/9".to_string(), Some(found));
    let b = c.bookmark.unwrap();
    assert_eq!(b.id, 9);
    assert_eq!(b.url, "https://example.test/9");
    assert_eq!(b.tag_names, vec!["A"]);
}

fn request(added: Option<i64>, modified: Option<i64>) -> BookmarkRequest {
    BookmarkRequest {
        url: "u".to_string(),
        title: "t".to_string(),
        description: None,
        notes: None,
        unread: None,
        tag_names: None,
        date_added: added,
        date_modified: modified,
    }
}

#[test]
fn creation_times_default_to_now() {
    assert_eq!(request(None, None).creation_times(77), (77, 77));
    assert_eq!(request(Some(5), None).creation_times(77), (5, 77));
    assert_eq!(request(Some(5), Some(6)).creation_times(77), (5, 6));
}

#[test]
fn import_parses_times() {
    let item = LinkDing {
        url: "https://a.test".to_string(),
        title: "A".to_string(),
        description: Some("d".to_string()),
        notes: None,
        unread: true,
        tag_names: Some(vec!["x".to_string()]),
        date_added: "2024-01-02T03:04:05Z".to_string(),
        date_modified: "2024-01-02T05:04:05+02:00".to_string(),
    };
    let r = item.into_request();
    assert_eq!(r.url, "https://a.test");
    assert_eq!(r.title, "A");
    assert_eq!(r.description, Some("d".to_string()));
    assert_eq!(r.unread, Some(true));
    assert_eq!(r.tag_names, Some(vec!["x".to_string()]));
    assert_eq!(r.date_added, Some(1704164645));
    assert_eq!(r.date_modified, Some(1704164645));
}

#[test]
fn import_drops_unparsable_times() {
    let item = LinkDing {
        url: "u".to_string(),
        title: "t".to_string(),
        description: None,
        notes: None,
        unread: false,
        tag_names: None,
        date_added: "yesterday".to_string(),
        date_modified: "".to_string(),
    };
    let r = item.into_request();
    assert_eq!(r.date_added, None);
    assert_eq!(r.date_modified, None);
    assert_eq!(r.unread, Some(false));
}

#[test]
fn command_line_choices() {
    let a = Arguments { import: Some("f.json".to_string()), export_html: true };
    assert_eq!(a.command(), Command::Import("f.json".to_string()));
    let a = Arguments { import: None, export_html: true };
    assert_eq!(a.command(), Command::ExportHtml);
    let a = Arguments { import: None, export_html: false };
    assert_eq!(a.command(), Command::Serve);
}
