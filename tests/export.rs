use pinrs::bookmark::BookmarkResponse;
use pinrs::export::{decimal_string, render_netscape};

fn bookmark(description: Option<&str>, notes: Option<&str>, unread: bool) -> BookmarkResponse {
    BookmarkResponse {
        id: 1,
        url: "https://a.test".to_string(),
        title: "Alpha".to_string(),
        description: description.map(|s| s.to_string()),
        notes: notes.map(|s| s.to_string()),
        unread,
        tag_names: vec!["x".to_string(), "y".to_string()],
        date_added: "2024-01-02T03:04:05+00:00".to_string(),
        date_modified: "not a date".to_string(),
    }
}

const HEAD: &str = "<!DOCTYPE NETSCAPE-Bookmark-file-1>\n<META HTTP-EQUIV=\"Content-Type\" CONTENT=\"text/html; charset=UTF-8\">\n<TITLE>Bookmarks</TITLE>\n<H1>Bookmarks</H1>\n<DL><p>";

#[test]
fn decimal_numbers() {
    assert_eq!(decimal_string(0), "0");
    assert_eq!(decimal_string(1704164645), "1704164645");
    assert_eq!(decimal_string(-12), "-12");
    assert_eq!(decimal_string(i64::MIN), i64::MIN.to_string());
    assert_eq!(decimal_string(i64::MAX), i64::MAX.to_string());
}

#[test]
fn empty_export_is_header_and_footer() {
    assert_eq!(render_netscape(&vec![]), format!("{HEAD}\n</DL><p>"));
}

#[test]
fn export_entry_with_text() {
    let out = render_netscape(&vec![bookmark(Some("desc"), Some("note"), true)]);
    let expected = format!(
        "{HEAD}\n<DT><A HREF=\"https://a.test\" ADD_DATE=\"1704164645\" LAST_MODIFIED=\"0\" TOREAD=\"1\" TAGS=\"x,y\">Alpha</A>\n<DD>\ndesc---\nnote\n</DL><p>"
    );
    assert_eq!(out, expected);
}

#[test]
fn export_entry_without_text() {
    let out = render_netscape(&vec![bookmark(Some(""), None, false)]);
    let expected = format!(
        "{HEAD}\n<DT><A HREF=\"https://a.test\" ADD_DATE=\"1704164645\" LAST_MODIFIED=\"0\" TOREAD=\"0\" TAGS=\"x,y\">Alpha</A>\n</DL><p>"
    );
    assert_eq!(out, expected);
}
