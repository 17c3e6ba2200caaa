use vstd::prelude::*;

use crate::query::{plan_of, PlanView, DEFAULT_LIMIT};
use crate::search::{tag_words, text_words, words};

verus! {

/// What a listing looks at of one stored bookmark: its id, its tag names,
/// its unread flag, when it was added, and whether the store's full-text
/// index matches it against the plan's text.
pub struct Candidate {
    pub id: int,
    pub tags: Set<Seq<char>>,
    pub unread: bool,
    pub date_added: int,
    pub text_hit: bool,
}

/// Whether `c` has one of the tags `names`.
pub open spec fn has_any_tag(c: Candidate, names: Seq<Seq<char>>) -> bool {
    exists|i: int| 0 <= i < names.len() && c.tags.contains(#[trigger] names[i])
}

/// Whether a listing under `p` keeps `c`: one of the searched tags (if any
/// were searched), a text match (if text was searched), and unread (if only
/// unread bookmarks were asked for).
pub open spec fn admits(p: PlanView, c: Candidate) -> bool {
    &&& (p.tag_names.len() > 0 ==> has_any_tag(c, p.tag_names))
    &&& (p.text is Some ==> c.text_hit)
    &&& (p.unread_only ==> c.unread)
}

/// Whether `a` is listed before `b`: added later, or in the same second with
/// a higher id.
pub open spec fn listed_before(a: Candidate, b: Candidate) -> bool {
    a.date_added > b.date_added || (a.date_added == b.date_added && a.id > b.id)
}

/// Where the page of a plan starts among `n` ordered bookmarks.
pub open spec fn page_start(p: PlanView, n: int) -> int {
    if p.offset < n {
        p.offset as int
    } else {
        n
    }
}

/// Where the page of a plan ends among `n` ordered bookmarks: no bound when
/// the limit is 0.
pub open spec fn page_end(p: PlanView, n: int) -> int {
    if p.limit == 0 || p.offset + p.limit >= n {
        n
    } else {
        (p.offset + p.limit) as int
    }
}

/// The page that a plan keeps of the admitted bookmarks `s`, ordered.
pub open spec fn page<T>(p: PlanView, s: Seq<T>) -> Seq<T> {
    s.subrange(page_start(p, s.len() as int), page_end(p, s.len() as int))
}

/// Searching several tags and no text admits a bookmark that has any one of
/// them.
pub proof fn law_any_searched_tag(q: Seq<char>, c: Candidate, i: int)
    requires
        text_words(words(q)).len() == 0,
        0 <= i < tag_words(words(q)).len(),
        c.tags.contains(tag_words(words(q))[i]),
    ensures
        admits(plan_of(Some(q), None, None, None), c),
{
    assert(has_any_tag(c, tag_words(words(q))));
}

/// Searching tags and text together admits exactly the bookmarks that have
/// one of the tags and also match the text.
pub proof fn law_tags_and_text(q: Seq<char>, c: Candidate)
    requires
        tag_words(words(q)).len() > 0,
        text_words(words(q)).len() > 0,
    ensures
        admits(plan_of(Some(q), None, None, None), c) <==> (has_any_tag(
            c,
            tag_words(words(q)),
        ) && c.text_hit),
{
}

/// Asking for unread bookmarks with no search admits exactly the unread
/// ones; not asking admits every bookmark.
pub proof fn law_unread_filter(c: Candidate)
    ensures
        admits(plan_of(None, None, None, Some("yes"@)), c) <==> c.unread,
        admits(plan_of(None, None, None, None), c),
{
}

/// A page skips the first `offset` of the ordered bookmarks and keeps the
/// `limit` after them (100 when no limit is given, all of them for a limit
/// of 0), or fewer where the list ends.
pub proof fn law_page<T>(s: Seq<T>, limit: Option<u32>, offset: u32)
    ensures
        ({
            let r = page(plan_of(None, limit, Some(offset), None), s);
            let l = match limit {
                Some(l) => l,
                None => DEFAULT_LIMIT,
            };
            let rest = if offset < s.len() {
                s.len() - offset
            } else {
                0
            };
            &&& r.len() == if l == 0 || rest < l {
                rest
            } else {
                l as int
            }
            &&& forall|k: int| 0 <= k < r.len() ==> r[k] == s[offset + k]
        }),
{
}

} // verus!
