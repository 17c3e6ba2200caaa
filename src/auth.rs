use vstd::prelude::*;

verus! {

/// The scheme words that may stand before the token in an `Authorization` header.
pub const TOKEN_SCHEME: &'static str = "Token ";

pub const BEARER_SCHEME: &'static str = "Bearer ";

/// `s` without the prefix `p`, if `s` starts with it.
pub open spec fn strip(s: Seq<char>, p: Seq<char>) -> Option<Seq<char>> {
    if p.len() <= s.len() && s.subrange(0, p.len() as int) == p {
        Some(s.skip(p.len() as int))
    } else {
        None
    }
}

/// The token an `Authorization` header carries: after `Token `, or else
/// after `Bearer `.
pub open spec fn header_token(h: Seq<char>) -> Option<Seq<char>> {
    match strip(h, TOKEN_SCHEME@) {
        Some(t) => Some(t),
        None => strip(h, BEARER_SCHEME@),
    }
}

/// Strips the prefix `p` from `s`.
pub fn strip_prefix(s: &str, p: &str) -> (r: Option<String>)
    ensures
        match r {
            Some(t) => strip(s@, p@) == Some(t@),
            None => strip(s@, p@) is None,
        },
{
    let n = s.unicode_len();
    let m = p.unicode_len();
    if m > n {
        return None;
    }
    let mut i: usize = 0;
    while i < m
        invariant
            m <= n,
            n == s@.len(),
            m == p@.len(),
            0 <= i <= m,
            s@.subrange(0, i as int) == p@.subrange(0, i as int),
        decreases m - i,
    {
        if s.get_char(i) != p.get_char(i) {
            assert(s@.subrange(0, m as int)[i as int] != p@[i as int]);
            return None;
        }
        assert(s@.subrange(0, i + 1) =~= s@.subrange(0, i as int).push(s@[i as int]));
        assert(p@.subrange(0, i + 1) =~= p@.subrange(0, i as int).push(p@[i as int]));
        i = i + 1;
    }
    assert(p@.subrange(0, m as int) =~= p@);
    let rest = s.substring_char(m, n).to_owned();
    assert(rest@ =~= s@.skip(m as int));
    Some(rest)
}

/// The token of an `Authorization` header.
pub fn token_from_header(h: &str) -> (r: Option<String>)
    ensures
        match r {
            Some(t) => header_token(h@) == Some(t@),
            None => header_token(h@) is None,
        },
{
    match strip_prefix(h, TOKEN_SCHEME) {
        Some(t) => Some(t),
        None => strip_prefix(h, BEARER_SCHEME),
    }
}

/// Whether a request with this `Authorization` header (if it has one that
/// is text) may go on: its token must be the service's.
pub fn is_authorized(header: Option<&str>, token: &str) -> (r: bool)
    ensures
        r == match header {
            Some(h) => header_token(h@) == Some(token@),
            None => false,
        },
{
    match header {
        Some(h) => match token_from_header(h) {
            Some(t) => {
                let expected = token.to_owned();
                t == expected
            },
            None => false,
        },
        None => false,
    }
}

} // verus!
