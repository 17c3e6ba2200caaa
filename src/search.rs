use vstd::prelude::*;

use crate::text::push_char;

verus! {

/// The characters with Unicode's `White_Space` property.
pub open spec fn is_space(c: char) -> bool {
    ||| ('\t' <= c && c <= '\r')
    ||| c == ' '
    ||| c == '\u{85}'
    ||| c == '\u{a0}'
    ||| c == '\u{1680}'
    ||| ('\u{2000}' <= c && c <= '\u{200a}')
    ||| c == '\u{2028}'
    ||| c == '\u{2029}'
    ||| c == '\u{202f}'
    ||| c == '\u{205f}'
    ||| c == '\u{3000}'
}

/// Whether `c` separates words.
pub fn is_space_char(c: char) -> (r: bool)
    ensures
        r == is_space(c),
{
    ('\t' <= c && c <= '\r') || c == ' ' || c == '\u{85}' || c == '\u{a0}' || c == '\u{1680}'
        || ('\u{2000}' <= c && c <= '\u{200a}') || c == '\u{2028}' || c == '\u{2029}'
        || c == '\u{202f}' || c == '\u{205f}' || c == '\u{3000}'
}

/// The words finished after reading `s`, and the word still being read.
pub open spec fn scan(s: Seq<char>) -> (Seq<Seq<char>>, Seq<char>)
    decreases s.len(),
{
    if s.len() == 0 {
        (seq![], seq![])
    } else {
        let (done, cur) = scan(s.drop_last());
        let c = s.last();
        if !is_space(c) {
            (done, cur.push(c))
        } else if cur.len() > 0 {
            (done.push(cur), seq![])
        } else {
            (done, cur)
        }
    }
}

/// The maximal runs of non-space characters of `s`, in order.
pub open spec fn words(s: Seq<char>) -> Seq<Seq<char>> {
    let (done, cur) = scan(s);
    if cur.len() > 0 {
        done.push(cur)
    } else {
        done
    }
}

/// A word that names a tag: it starts with `#`.
pub open spec fn is_tag_word(w: Seq<char>) -> bool {
    w.len() > 0 && w[0] == '#'
}

/// The tag names among `ws`, with the `#` taken off, in order.
pub open spec fn tag_words(ws: Seq<Seq<char>>) -> Seq<Seq<char>>
    decreases ws.len(),
{
    if ws.len() == 0 {
        seq![]
    } else if is_tag_word(ws.last()) {
        tag_words(ws.drop_last()).push(ws.last().drop_first())
    } else {
        tag_words(ws.drop_last())
    }
}

/// The words of `ws` that do not name a tag, in order.
pub open spec fn text_words(ws: Seq<Seq<char>>) -> Seq<Seq<char>>
    decreases ws.len(),
{
    if ws.len() == 0 {
        seq![]
    } else if is_tag_word(ws.last()) {
        text_words(ws.drop_last())
    } else {
        text_words(ws.drop_last()).push(ws.last())
    }
}

/// The views of a list of strings.
pub open spec fn strings_view(v: Seq<String>) -> Seq<Seq<char>> {
    v.map_values(|s: String| s@)
}

/// A parsed search: the tags asked for and the free-text words.
pub struct SearchQuery {
    pub tag_names: Vec<String>,
    pub text: Vec<String>,
}

impl SearchQuery {
    pub open spec fn tags_view(&self) -> Seq<Seq<char>> {
        strings_view(self.tag_names@)
    }

    pub open spec fn text_view(&self) -> Seq<Seq<char>> {
        strings_view(self.text@)
    }
}

/// Files the finished word `w` as a tag name or as a text word.
fn file_word(w: String, tags: &mut Vec<String>, text: &mut Vec<String>)
    requires
        w@.len() > 0,
    ensures
        is_tag_word(w@) ==> strings_view(final(tags)@) == strings_view(old(tags)@).push(
            w@.drop_first(),
        ) && final(text)@ == old(text)@,
        !is_tag_word(w@) ==> strings_view(final(text)@) == strings_view(old(text)@).push(w@)
            && final(tags)@ == old(tags)@,
{
    let first = w.as_str().get_char(0);
    if first == '#' {
        let n = w.as_str().unicode_len();
        let name = w.as_str().substring_char(1, n);
        let name = name.to_owned();
        tags.push(name);
        proof {
            assert(strings_view(final(tags)@) =~= strings_view(old(tags)@).push(w@.drop_first()));
        }
    } else {
        text.push(w);
        proof {
            assert(strings_view(final(text)@) =~= strings_view(old(text)@).push(w@));
        }
    }
}

/// Splits a search on white space: a word that starts with `#` names a tag
/// (the `#` is dropped), every other word is free text.
pub fn parse_search(query: &str) -> (r: SearchQuery)
    ensures
        r.tags_view() == tag_words(words(query@)),
        r.text_view() == text_words(words(query@)),
{
    let mut tags: Vec<String> = Vec::new();
    let mut text: Vec<String> = Vec::new();
    let mut cur = String::new();
    let n = query.unicode_len();
    let mut i: usize = 0;
    while i < n
        invariant
            n == query@.len(),
            0 <= i <= n,
            cur@ == scan(query@.subrange(0, i as int)).1,
            strings_view(tags@) == tag_words(scan(query@.subrange(0, i as int)).0),
            strings_view(text@) == text_words(scan(query@.subrange(0, i as int)).0),
        decreases n - i,
    {
        let c = query.get_char(i);
        let ghost prefix = query@.subrange(0, i as int);
        let ghost next = query@.subrange(0, i + 1);
        assert(next.drop_last() =~= prefix);
        if !is_space_char(c) {
            push_char(&mut cur, c);
        } else if cur.unicode_len() > 0 {
            let w = cur;
            cur = String::new();
            proof {
                let ws = scan(prefix).0;
                assert(ws.push(w@).drop_last() =~= ws);
            }
            file_word(w, &mut tags, &mut text);
        }
        i = i + 1;
    }
    assert(query@.subrange(0, n as int) =~= query@);
    if cur.unicode_len() > 0 {
        proof {
            let ws = scan(query@).0;
            assert(ws.push(cur@).drop_last() =~= ws);
        }
        file_word(cur, &mut tags, &mut text);
    }
    SearchQuery { tag_names: tags, text }
}

} // verus!
