use vstd::prelude::*;

use crate::bookmark::BookmarkResponse;
use crate::query::{join_with, joined};
use crate::search::strings_view;
use crate::text::push_char;
use crate::time::{parse_rfc3339, rfc3339_seconds};

verus! {

pub const DOCTYPE: &'static str = "<!DOCTYPE NETSCAPE-Bookmark-file-1>";

pub const META: &'static str = "<META HTTP-EQUIV=\"Content-Type\" CONTENT=\"text/html; charset=UTF-8\">";

pub const TITLE: &'static str = "<TITLE>Bookmarks</TITLE>";

pub const HEADING: &'static str = "<H1>Bookmarks</H1>";

pub const LIST_OPEN: &'static str = "<DL><p>";

pub const LIST_CLOSE: &'static str = "</DL><p>";

pub const ENTRY_OPEN: &'static str = "<DT><A HREF=\"";

pub const ADD_DATE: &'static str = "\" ADD_DATE=\"";

pub const LAST_MODIFIED: &'static str = "\" LAST_MODIFIED=\"";

pub const TOREAD: &'static str = "\" TOREAD=\"";

pub const TAGS: &'static str = "\" TAGS=\"";

pub const ENTRY_TITLE: &'static str = "\">";

pub const ENTRY_CLOSE: &'static str = "</A>";

pub const DESCRIPTION: &'static str = "<DD>";

pub const TEXT_SEPARATOR: &'static str = "---\n";

pub const LINE_BREAK: &'static str = "\n";

pub const COMMA: &'static str = ",";

pub const ONE: &'static str = "1";

pub const ZERO: &'static str = "0";

/// The decimal digit `d`.
pub open spec fn digit_char(d: int) -> char {
    if d == 0 {
        '0'
    } else if d == 1 {
        '1'
    } else if d == 2 {
        '2'
    } else if d == 3 {
        '3'
    } else if d == 4 {
        '4'
    } else if d == 5 {
        '5'
    } else if d == 6 {
        '6'
    } else if d == 7 {
        '7'
    } else if d == 8 {
        '8'
    } else {
        '9'
    }
}

/// The decimal digits of `n`.
pub open spec fn digits(n: nat) -> Seq<char>
    decreases n,
{
    if n < 10 {
        seq![digit_char(n as int)]
    } else {
        digits(n / 10) + seq![digit_char((n % 10) as int)]
    }
}

/// `n` in decimal, with a `-` when negative.
pub open spec fn decimal(n: int) -> Seq<char> {
    if n < 0 {
        seq!['-'] + digits((-n) as nat)
    } else {
        digits(n as nat)
    }
}

fn push_digit(s: &mut String, d: u64)
    requires
        d < 10,
    ensures
        final(s)@ == old(s)@.push(digit_char(d as int)),
{
    let c = if d == 0 {
        '0'
    } else if d == 1 {
        '1'
    } else if d == 2 {
        '2'
    } else if d == 3 {
        '3'
    } else if d == 4 {
        '4'
    } else if d == 5 {
        '5'
    } else if d == 6 {
        '6'
    } else if d == 7 {
        '7'
    } else if d == 8 {
        '8'
    } else {
        '9'
    };
    push_char(s, c);
}

fn push_digits(s: &mut String, n: u64)
    ensures
        final(s)@ == old(s)@ + digits(n as nat),
    decreases n,
{
    if n >= 10 {
        push_digits(s, n / 10);
    }
    push_digit(s, n % 10);
    assert(final(s)@ =~= old(s)@ + digits(n as nat));
}

/// Writes `n` in decimal.
pub fn decimal_string(n: i64) -> (r: String)
    ensures
        r@ == decimal(n as int),
{
    let mut r = String::new();
    if n < 0 {
        push_char(&mut r, '-');
        let m: u64 = (0 - (n as i128)) as u64;
        push_digits(&mut r, m);
    } else {
        push_digits(&mut r, n as u64);
    }
    assert(r@ =~= decimal(n as int));
    r
}

/// The seconds of an RFC 3339 time, or 0 where it does not parse.
pub open spec fn seconds_or_zero(s: Seq<char>) -> int {
    match rfc3339_seconds(s) {
        Some(t) => t as int,
        None => 0,
    }
}

pub open spec fn or_empty(s: Option<String>) -> Seq<char> {
    match s {
        Some(t) => t@,
        None => seq![],
    }
}

/// The link line of one bookmark.
pub open spec fn entry_line(b: BookmarkResponse) -> Seq<char> {
    ENTRY_OPEN@ + b.url@ + ADD_DATE@ + decimal(seconds_or_zero(b.date_added@)) + LAST_MODIFIED@
        + decimal(seconds_or_zero(b.date_modified@)) + TOREAD@ + (if b.unread {
        ONE@
    } else {
        ZERO@
    }) + TAGS@ + joined(strings_view(b.tag_names@), COMMA@) + ENTRY_TITLE@ + b.title@
        + ENTRY_CLOSE@
}

/// The description and the notes of a bookmark, those that are not empty.
pub open spec fn free_text(b: BookmarkResponse) -> Seq<Seq<char>> {
    let d = or_empty(b.description);
    let n = or_empty(b.notes);
    (if d.len() > 0 {
        seq![d]
    } else {
        seq![]
    }) + (if n.len() > 0 {
        seq![n]
    } else {
        seq![]
    })
}

/// The lines of one bookmark: its link, then, if it has free text, a `<DD>`
/// line and the texts joined by `---` lines.
pub open spec fn entry_lines(b: BookmarkResponse) -> Seq<Seq<char>> {
    let t = free_text(b);
    seq![entry_line(b)] + if t.len() > 0 {
        seq![DESCRIPTION@, joined(t, TEXT_SEPARATOR@)]
    } else {
        seq![]
    }
}

pub open spec fn entries_lines(bs: Seq<BookmarkResponse>) -> Seq<Seq<char>>
    decreases bs.len(),
{
    if bs.len() == 0 {
        seq![]
    } else {
        entries_lines(bs.drop_last()) + entry_lines(bs.last())
    }
}

/// The lines of a bookmark file holding `bs`, in order.
pub open spec fn netscape_lines(bs: Seq<BookmarkResponse>) -> Seq<Seq<char>> {
    seq![DOCTYPE@, META@, TITLE@, HEADING@, LIST_OPEN@] + entries_lines(bs) + seq![LIST_CLOSE@]
}

fn push_line(lines: &mut Vec<String>, s: String)
    ensures
        strings_view(final(lines)@) == strings_view(old(lines)@).push(s@),
{
    lines.push(s);
    assert(strings_view(final(lines)@) =~= strings_view(old(lines)@).push(s@));
}

fn entry_line_of(b: &BookmarkResponse) -> (r: String)
    ensures
        r@ == entry_line(*b),
{
    let added = match parse_rfc3339(b.date_added.as_str()) {
        Some(t) => t,
        None => 0,
    };
    let modified = match parse_rfc3339(b.date_modified.as_str()) {
        Some(t) => t,
        None => 0,
    };
    let mut r = String::from_str(ENTRY_OPEN);
    r.append(b.url.as_str());
    r.append(ADD_DATE);
    r.append(decimal_string(added).as_str());
    r.append(LAST_MODIFIED);
    r.append(decimal_string(modified).as_str());
    r.append(TOREAD);
    r.append(if b.unread {
        ONE
    } else {
        ZERO
    });
    r.append(TAGS);
    r.append(join_with(&b.tag_names, COMMA).as_str());
    r.append(ENTRY_TITLE);
    r.append(b.title.as_str());
    r.append(ENTRY_CLOSE);
    r
}

fn free_text_of(b: &BookmarkResponse) -> (r: Vec<String>)
    ensures
        strings_view(r@) == free_text(*b),
{
    let mut r: Vec<String> = Vec::new();
    match &b.description {
        Some(d) => if d.as_str().unicode_len() > 0 {
            push_line(&mut r, d.clone());
        },
        None => {},
    }
    match &b.notes {
        Some(n) => if n.as_str().unicode_len() > 0 {
            push_line(&mut r, n.clone());
        },
        None => {},
    }
    assert(strings_view(r@) =~= free_text(*b));
    r
}

/// Writes bookmarks as a Netscape bookmark file, one entry per bookmark in
/// the order given, with the times of each in seconds, its read state, its
/// tags joined by commas, and its description and notes.
pub fn render_netscape(bookmarks: &Vec<BookmarkResponse>) -> (r: String)
    ensures
        r@ == joined(netscape_lines(bookmarks@), LINE_BREAK@),
{
    let mut lines: Vec<String> = Vec::new();
    push_line(&mut lines, String::from_str(DOCTYPE));
    push_line(&mut lines, String::from_str(META));
    push_line(&mut lines, String::from_str(TITLE));
    push_line(&mut lines, String::from_str(HEADING));
    push_line(&mut lines, String::from_str(LIST_OPEN));
    let ghost head = strings_view(lines@);
    assert(head =~= seq![DOCTYPE@, META@, TITLE@, HEADING@, LIST_OPEN@]);
    let mut i: usize = 0;
    while i < bookmarks.len()
        invariant
            0 <= i <= bookmarks.len(),
            strings_view(lines@) == head + entries_lines(bookmarks@.subrange(0, i as int)),
        decreases bookmarks.len() - i,
    {
        let b = &bookmarks[i];
        let ghost before = strings_view(lines@);
        assert(bookmarks@.subrange(0, i + 1).drop_last() =~= bookmarks@.subrange(0, i as int));
        push_line(&mut lines, entry_line_of(b));
        let text = free_text_of(b);
        if text.len() > 0 {
            push_line(&mut lines, String::from_str(DESCRIPTION));
            push_line(&mut lines, join_with(&text, TEXT_SEPARATOR));
        }
        assert(strings_view(lines@) =~= before + entry_lines(*b));
        i = i + 1;
    }
    assert(bookmarks@.subrange(0, bookmarks.len() as int) =~= bookmarks@);
    push_line(&mut lines, String::from_str(LIST_CLOSE));
    assert(strings_view(lines@) =~= netscape_lines(bookmarks@));
    join_with(&lines, LINE_BREAK)
}

} // verus!
