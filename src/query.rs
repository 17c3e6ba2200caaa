use vstd::prelude::*;

use crate::search::{parse_search, strings_view, tag_words, text_words, words};

verus! {

/// How many bookmarks a listing returns when the caller does not say.
pub const DEFAULT_LIMIT: u32 = 100;

/// The parameters of a listing: a search, a page, and whether only unread
/// bookmarks are wanted (`unread` is `"yes"`).
pub struct BookmarkQuery {
    pub q: Option<String>,
    pub limit: Option<u32>,
    pub offset: Option<u32>,
    pub unread: Option<String>,
}

impl BookmarkQuery {
    /// No search, the default page, read and unread alike.
    pub fn new() -> (r: BookmarkQuery)
        ensures
            r.q is None,
            r.limit is None,
            r.offset is None,
            r.unread is None,
    {
        BookmarkQuery { q: None, limit: None, offset: None, unread: None }
    }
}

/// A listing, compiled: the filters and the page that the store applies.
pub struct ListPlan {
    /// A bookmark passes when it has at least one of these tags; no names, no filter.
    pub tag_names: Vec<String>,
    /// A full-text expression that a bookmark must match; `None`, no filter.
    pub text: Option<String>,
    pub unread_only: bool,
    /// At most this many bookmarks; 0 is no bound.
    pub limit: u32,
    /// This many bookmarks are skipped first.
    pub offset: u32,
}

/// What a plan says, as mathematical values.
pub struct PlanView {
    pub tag_names: Seq<Seq<char>>,
    pub text: Option<Seq<char>>,
    pub unread_only: bool,
    pub limit: nat,
    pub offset: nat,
}

impl View for ListPlan {
    type V = PlanView;

    open spec fn view(&self) -> PlanView {
        PlanView {
            tag_names: strings_view(self.tag_names@),
            text: match self.text {
                Some(t) => Some(t@),
                None => None,
            },
            unread_only: self.unread_only,
            limit: self.limit as nat,
            offset: self.offset as nat,
        }
    }
}

/// `ws` with `sep` between neighbours.
pub open spec fn joined(ws: Seq<Seq<char>>, sep: Seq<char>) -> Seq<char>
    decreases ws.len(),
{
    if ws.len() == 0 {
        seq![]
    } else if ws.len() == 1 {
        ws[0]
    } else {
        joined(ws.drop_last(), sep) + sep + ws.last()
    }
}

/// The plan for a search `q`, a page, and the unread flag.
pub open spec fn plan_of(
    q: Option<Seq<char>>,
    limit: Option<u32>,
    offset: Option<u32>,
    unread: Option<Seq<char>>,
) -> PlanView {
    let ws = match q {
        Some(s) => words(s),
        None => seq![],
    };
    let text = text_words(ws);
    PlanView {
        tag_names: tag_words(ws),
        text: if text.len() == 0 {
            None
        } else {
            Some(joined(text, seq![' ']))
        },
        unread_only: unread == Some("yes"@),
        limit: match limit {
            Some(l) => l as nat,
            None => DEFAULT_LIMIT as nat,
        },
        offset: match offset {
            Some(o) => o as nat,
            None => 0,
        },
    }
}

pub open spec fn opt_view(s: Option<String>) -> Option<Seq<char>> {
    match s {
        Some(t) => Some(t@),
        None => None,
    }
}

impl BookmarkQuery {
    pub open spec fn plan(&self) -> PlanView {
        plan_of(opt_view(self.q), self.limit, self.offset, opt_view(self.unread))
    }
}

/// Joins strings with `sep` between neighbours.
pub fn join_with(ws: &Vec<String>, sep: &str) -> (r: String)
    ensures
        r@ == joined(strings_view(ws@), sep@),
{
    let mut r = String::new();
    let mut i: usize = 0;
    while i < ws.len()
        invariant
            0 <= i <= ws.len(),
            r@ == joined(strings_view(ws@.subrange(0, i as int)), sep@),
        decreases ws.len() - i,
    {
        let ghost before = strings_view(ws@.subrange(0, i as int));
        let ghost after = strings_view(ws@.subrange(0, i + 1));
        assert(after.drop_last() =~= before);
        if i > 0 {
            r.append(sep);
        }
        r.append(ws[i].as_str());
        i = i + 1;
        proof {
            if i == 1 {
                assert(r@ =~= after[0]);
            } else {
                assert(r@ =~= joined(before, sep@) + sep@ + after.last());
            }
        }
    }
    assert(ws@.subrange(0, ws@.len() as int) =~= ws@);
    r
}

/// Whether `s` is the word `yes`.
fn is_yes(s: &String) -> (r: bool)
    ensures
        r == (s@ == "yes"@),
{
    let yes = String::from_str("yes");
    *s == yes
}

/// Compiles a listing's parameters: the search is split into tags and text,
/// the text words are joined into one full-text expression, the page gets
/// its defaults (limit 100, offset 0), and `unread == "yes"` asks for unread
/// bookmarks only.
pub fn compile_query(query: &BookmarkQuery) -> (r: ListPlan)
    ensures
        r@ == query.plan(),
{
    let limit = match query.limit {
        Some(l) => l,
        None => DEFAULT_LIMIT,
    };
    let offset = match query.offset {
        Some(o) => o,
        None => 0,
    };
    let unread_only = match &query.unread {
        Some(u) => is_yes(u),
        None => false,
    };
    match &query.q {
        Some(q) => {
            let parsed = parse_search(q.as_str());
            let text = if parsed.text.len() == 0 {
                None
            } else {
                {
                    let sep = " ";
                    proof {
                        reveal_strlit(" ");
                        assert(sep@ =~= seq![' ']);
                    }
                    Some(join_with(&parsed.text, sep))
                }
            };
            let r = ListPlan { tag_names: parsed.tag_names, text, unread_only, limit, offset };
            r
        },
        None => {
            let r = ListPlan { tag_names: Vec::new(), text: None, unread_only, limit, offset };
            assert(r@.tag_names =~= seq![]);
            r
        },
    }
}

} // verus!
