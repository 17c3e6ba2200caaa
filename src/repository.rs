use vstd::prelude::*;

use crate::bookmark::{BookmarkRequest, BookmarkResponse};
use crate::time::{parse_rfc3339, rfc3339_seconds};

verus! {

/// The answer to "is this URL bookmarked?": the bookmark, if there is one,
/// and the URL asked about.
pub struct CheckResponse {
    pub bookmark: Option<BookmarkResponse>,
    pub url: String,
    /// Tags proposed for a new bookmark: none are.
    pub auto_tags: Vec<String>,
}

/// Answers a check of `url`, given what a lookup by that URL found.
pub fn check_response(url: String, found: Option<BookmarkResponse>) -> (r: CheckResponse)
    ensures
        r.bookmark == found,
        r.url == url,
        r.auto_tags@.len() == 0,
{
    CheckResponse { bookmark: found, url, auto_tags: Vec::new() }
}

impl BookmarkRequest {
    /// The times a new bookmark is stored with: those the request gives,
    /// else `now`.
    pub fn creation_times(&self, now: i64) -> (r: (i64, i64))
        ensures
            r.0 == match self.date_added {
                Some(t) => t,
                None => now,
            },
            r.1 == match self.date_modified {
                Some(t) => t,
                None => now,
            },
    {
        let added = match self.date_added {
            Some(t) => t,
            None => now,
        };
        let modified = match self.date_modified {
            Some(t) => t,
            None => now,
        };
        (added, modified)
    }
}

/// A bookmark in the exchange format that imports read, with its times as
/// RFC 3339 text.
pub struct LinkDing {
    pub url: String,
    pub title: String,
    pub description: Option<String>,
    pub notes: Option<String>,
    pub unread: bool,
    pub tag_names: Option<Vec<String>>,
    pub date_added: String,
    pub date_modified: String,
}

impl LinkDing {
    /// The request that imports this bookmark: its fields as they are, and
    /// its times in seconds since 1970 (absent where they do not parse).
    pub fn into_request(self) -> (r: BookmarkRequest)
        ensures
            r.url == self.url,
            r.title == self.title,
            r.description == self.description,
            r.notes == self.notes,
            r.unread == Some(self.unread),
            r.tag_names == self.tag_names,
            r.date_added == rfc3339_seconds(self.date_added@),
            r.date_modified == rfc3339_seconds(self.date_modified@),
    {
        let date_added = parse_rfc3339(self.date_added.as_str());
        let date_modified = parse_rfc3339(self.date_modified.as_str());
        BookmarkRequest {
            url: self.url,
            title: self.title,
            description: self.description,
            notes: self.notes,
            unread: Some(self.unread),
            tag_names: self.tag_names,
            date_added,
            date_modified,
        }
    }
}

/// The command line: a file to import, or a request to export, or neither
/// (then the service runs).
pub struct Arguments {
    pub import: Option<String>,
    pub export_html: bool,
}

/// What the program is asked to do.
#[derive(Debug, PartialEq, Eq)]
pub enum Command {
    Import(String),
    ExportHtml,
    Serve,
}

impl Arguments {
    /// An import goes first, then an export; with neither, the service runs.
    pub fn command(self) -> (r: Command)
        ensures
            match self.import {
                Some(path) => r == Command::Import(path),
                None => if self.export_html {
                    r is ExportHtml
                } else {
                    r is Serve
                },
            },
    {
        match self.import {
            Some(path) => Command::Import(path),
            None => if self.export_html {
                Command::ExportHtml
            } else {
                Command::Serve
            },
        }
    }
}

} // verus!
