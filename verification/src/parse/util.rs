//! Executable token-level helpers: whitespace skipping and literal matching.

use super::grammar::{
    is_ident_char, is_ws_char, spec_match_keyword, spec_match_tag, spec_skip_ws,
};
use vstd::prelude::*;

verus! {

broadcast use vstd::seq::group_seq_axioms;

/// Index just past the run of whitespace that starts at `pos`.
pub fn skip_whitespace(s: &str, pos: usize) -> (r: usize)
    requires
        pos <= s@.len(),
    ensures
        r == spec_skip_ws(s@, pos as int),
        pos <= r <= s@.len(),
{
    let n = s.unicode_len();
    let mut i = pos;
    while i < n
        invariant
            pos <= i <= n == s@.len(),
            spec_skip_ws(s@, pos as int) == spec_skip_ws(s@, i as int),
        decreases n - i,
    {
        let c = s.get_char(i);
        if c == ' ' || c == '\t' || c == '\n' || c == '\r' {
            i = i + 1;
        } else {
            assert(!is_ws_char(s@[i as int]));
            return i;
        }
    }
    i
}

/// Match the exact text `t` at `pos`, returning the position just past it.
pub fn match_tag(s: &str, pos: usize, t: &str) -> (r: Option<usize>)
    requires
        pos <= s@.len(),
    ensures
        match r {
            Some(p) => spec_match_tag(s@, pos as int, t@) == Some(p as int)
                && pos + t@.len() == p <= s@.len(),
            None => spec_match_tag(s@, pos as int, t@) is None,
        },
{
    let n = s.unicode_len();
    let m = t.unicode_len();
    if m > n - pos {
        return None;
    }
    let mut i: usize = 0;
    while i < m
        invariant
            0 <= i <= m == t@.len(),
            pos + m <= n == s@.len(),
            forall|j: int| 0 <= j < i ==> s@[pos + j] == t@[j],
        decreases m - i,
    {
        let a = s.get_char(pos + i);
        let b = t.get_char(i);
        if a != b {
            assert(s@.subrange(pos as int, pos + t@.len())[i as int] != t@[i as int]);
            return None;
        }
        i = i + 1;
    }
    assert(s@.subrange(pos as int, pos + t@.len()) =~= t@);
    Some(pos + m)
}

/// Match the exact text `t` at the position just past any leading whitespace.
pub fn tag_ws(s: &str, pos: usize, t: &str) -> (r: Option<usize>)
    requires
        pos <= s@.len(),
    ensures
        match r {
            Some(p) => spec_match_tag(s@, spec_skip_ws(s@, pos as int), t@) == Some(p as int)
                && pos <= p <= s@.len() && p == spec_skip_ws(s@, pos as int) + t@.len(),
            None => spec_match_tag(s@, spec_skip_ws(s@, pos as int), t@) is None,
        },
{
    let q = skip_whitespace(s, pos);
    match_tag(s, q, t)
}

/// The remaining input from character position `pos` on.
pub fn rest_from(s: &str, pos: usize) -> (r: &str)
    requires
        pos <= s@.len(),
    ensures
        r@ == s@.subrange(pos as int, s@.len() as int),
{
    let n = s.unicode_len();
    s.substring_char(pos, n)
}

/// Match the keyword `t` at `pos`: the exact text, not immediately followed
/// by an identifier character.
pub fn match_keyword(s: &str, pos: usize, t: &str) -> (r: Option<usize>)
    requires
        pos <= s@.len(),
    ensures
        match r {
            Some(p) => spec_match_keyword(s@, pos as int, t@) == Some(p as int)
                && pos + t@.len() == p <= s@.len(),
            None => spec_match_keyword(s@, pos as int, t@) is None,
        },
{
    match match_tag(s, pos, t) {
        Some(p) => {
            let n = s.unicode_len();
            if p < n {
                let c = s.get_char(p);
                let follows = (('a' <= c && c <= 'z') || ('A' <= c && c <= 'Z'))
                    || ('0' <= c && c <= '9') || c == '_';
                if follows {
                    assert(is_ident_char(s@[p as int]));
                    None
                } else {
                    assert(!is_ident_char(s@[p as int]));
                    Some(p)
                }
            } else {
                Some(p)
            }
        },
        None => None,
    }
}

} // verus!
