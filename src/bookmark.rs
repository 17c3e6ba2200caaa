use vstd::prelude::*;

use crate::search::strings_view;
use crate::tags::{PostId, TagId};
use crate::time::{date_in_range, format_utc, in_date_range, rfc3339_utc};

verus! {

/// A bookmark as the store returns it, with its tag names joined by commas
/// (`None` when it has no tags).
pub struct BookmarkRow {
    pub id: PostId,
    pub url: String,
    pub title: String,
    pub description: Option<String>,
    pub notes: Option<String>,
    pub unread: Option<bool>,
    pub tag_names: Option<String>,
    pub date_added: i64,
    pub date_modified: i64,
}

/// A bookmark as clients see it.
pub struct BookmarkResponse {
    pub id: PostId,
    pub url: String,
    pub title: String,
    pub description: Option<String>,
    pub notes: Option<String>,
    pub unread: bool,
    pub tag_names: Vec<String>,
    pub date_added: String,
    pub date_modified: String,
}

/// What a client submits to create or replace a bookmark. The times are
/// given only by an import, which keeps a bookmark's history.
pub struct BookmarkRequest {
    pub url: String,
    pub title: String,
    pub description: Option<String>,
    pub notes: Option<String>,
    pub unread: Option<bool>,
    pub tag_names: Option<Vec<String>>,
    pub date_added: Option<i64>,
    pub date_modified: Option<i64>,
}

/// A tag as the store returns it.
pub struct TagRow {
    pub id: TagId,
    pub name: String,
    pub date_added: i64,
}

/// A tag as clients see it.
pub struct TagResponse {
    pub id: TagId,
    pub name: String,
    pub date_added: String,
}

/// The pieces of `s` between the separators `sep`: pieces done and the piece
/// being read.
pub open spec fn split_scan(s: Seq<char>, sep: char) -> (Seq<Seq<char>>, Seq<char>)
    decreases s.len(),
{
    if s.len() == 0 {
        (seq![], seq![])
    } else {
        let (done, cur) = split_scan(s.drop_last(), sep);
        if s.last() == sep {
            (done.push(cur), seq![])
        } else {
            (done, cur.push(s.last()))
        }
    }
}

/// The pieces of `s` between the separators `sep`, empty ones included: one
/// more than there are separators.
pub open spec fn split_on(s: Seq<char>, sep: char) -> Seq<Seq<char>> {
    let (done, cur) = split_scan(s, sep);
    done.push(cur)
}

/// Splits `s` at every `sep`.
pub fn split_at_char(s: &str, sep: char) -> (r: Vec<String>)
    ensures
        strings_view(r@) == split_on(s@, sep),
{
    let mut done: Vec<String> = Vec::new();
    let mut cur = String::new();
    let n = s.unicode_len();
    let mut i: usize = 0;
    while i < n
        invariant
            n == s@.len(),
            0 <= i <= n,
            strings_view(done@) == split_scan(s@.subrange(0, i as int), sep).0,
            cur@ == split_scan(s@.subrange(0, i as int), sep).1,
        decreases n - i,
    {
        let c = s.get_char(i);
        assert(s@.subrange(0, i + 1).drop_last() =~= s@.subrange(0, i as int));
        if c == sep {
            let piece = cur;
            cur = String::new();
            done.push(piece);
            proof {
                assert(strings_view(done@) =~= split_scan(s@.subrange(0, i as int), sep).0.push(
                    piece@,
                ));
            }
        } else {
            crate::text::push_char(&mut cur, c);
        }
        i = i + 1;
    }
    assert(s@.subrange(0, n as int) =~= s@);
    let ghost before = strings_view(done@);
    done.push(cur);
    assert(strings_view(done@) =~= before.push(cur@));
    done
}

/// The tag names of a stored row: none when it has none, else the pieces
/// between its commas.
pub open spec fn row_tags(t: Option<String>) -> Seq<Seq<char>> {
    match t {
        Some(s) => split_on(s@, ','),
        None => seq![],
    }
}

impl BookmarkRow {
    /// Whether the row's times can be written as dates.
    pub open spec fn dates_in_range(&self) -> bool {
        in_date_range(self.date_added) && in_date_range(self.date_modified)
    }

    /// Whether the row's times can be written as dates.
    pub fn has_dates_in_range(&self) -> (r: bool)
        ensures
            r == self.dates_in_range(),
    {
        date_in_range(self.date_added) && date_in_range(self.date_modified)
    }
}

impl BookmarkResponse {
    /// What a client is shown of a stored bookmark: the same fields, `unread`
    /// false where the store has none, the tag names split at commas, and the
    /// times as RFC 3339 dates in UTC.
    pub fn from_row(row: BookmarkRow) -> (r: BookmarkResponse)
        requires
            row.dates_in_range(),
        ensures
            r.id == row.id,
            r.url == row.url,
            r.title == row.title,
            r.description == row.description,
            r.notes == row.notes,
            r.unread == (row.unread == Some(true)),
            strings_view(r.tag_names@) == row_tags(row.tag_names),
            r.date_added@ == rfc3339_utc(row.date_added),
            r.date_modified@ == rfc3339_utc(row.date_modified),
    {
        let tag_names = match &row.tag_names {
            Some(t) => split_at_char(t.as_str(), ','),
            None => Vec::new(),
        };
        proof {
            if row.tag_names is None {
                assert(strings_view(tag_names@) =~= seq![]);
            }
        }
        let unread = match row.unread {
            Some(u) => u,
            None => false,
        };
        BookmarkResponse {
            id: row.id,
            url: row.url,
            title: row.title,
            description: row.description,
            notes: row.notes,
            unread,
            tag_names,
            date_added: format_utc(row.date_added),
            date_modified: format_utc(row.date_modified),
        }
    }
}

/// Whether `r` is what a client is shown of the stored row `row`.
pub open spec fn shows(r: BookmarkResponse, row: BookmarkRow) -> bool {
    &&& r.id == row.id
    &&& r.url == row.url
    &&& r.title == row.title
    &&& r.description == row.description
    &&& r.notes == row.notes
    &&& r.unread == (row.unread == Some(true))
    &&& strings_view(r.tag_names@) == row_tags(row.tag_names)
    &&& r.date_added@ == rfc3339_utc(row.date_added)
    &&& r.date_modified@ == rfc3339_utc(row.date_modified)
}

/// Converts every row, in order.
pub fn responses_from_rows(rows: Vec<BookmarkRow>) -> (r: Vec<BookmarkResponse>)
    requires
        forall|i: int| 0 <= i < rows@.len() ==> (#[trigger] rows@[i]).dates_in_range(),
    ensures
        r@.len() == rows@.len(),
        forall|i: int| 0 <= i < rows@.len() ==> shows(#[trigger] r@[i], rows@[i]),
{
    let ghost all = rows@;
    let n = rows.len();
    let mut rows = rows;
    let mut rev: Vec<BookmarkResponse> = Vec::new();
    while rows.len() > 0
        invariant
            rows@.len() + rev@.len() == n,
            n == all.len(),
            rows@ == all.subrange(0, rows@.len() as int),
            forall|i: int| 0 <= i < all.len() ==> (#[trigger] all[i]).dates_in_range(),
            forall|k: int| 0 <= k < rev@.len() ==> shows(#[trigger] rev@[k], all[n - 1 - k]),
        decreases rows@.len(),
    {
        let row = rows.pop().unwrap();
        assert(row == all[rows@.len() as int]);
        rev.push(BookmarkResponse::from_row(row));
        assert(rows@ =~= all.subrange(0, rows@.len() as int));
    }
    let mut r: Vec<BookmarkResponse> = Vec::new();
    while rev.len() > 0
        invariant
            rev@.len() + r@.len() == n,
            n == all.len(),
            forall|k: int| 0 <= k < rev@.len() ==> shows(#[trigger] rev@[k], all[n - 1 - k]),
            forall|k: int| 0 <= k < r@.len() ==> shows(#[trigger] r@[k], all[k]),
        decreases rev@.len(),
    {
        let b = rev.pop().unwrap();
        r.push(b);
    }
    r
}

/// What a client is shown of a tag.
pub fn tag_response(row: TagRow) -> (r: TagResponse)
    requires
        in_date_range(row.date_added),
    ensures
        r.id == row.id,
        r.name == row.name,
        r.date_added@ == rfc3339_utc(row.date_added),
{
    TagResponse { id: row.id, name: row.name, date_added: format_utc(row.date_added) }
}

} // verus!
