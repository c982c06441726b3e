//! The placeholder grammar: `<<`, a key, `>>`.
//!
//! A key is the shortest run of characters up to the first `>>` that follows
//! the opening `<<`. It may be empty, it is taken verbatim, and it never
//! holds a line feed: a token does not reach across lines. Tokens are found
//! from left to right and do not overlap.

use vstd::prelude::*;

verus! {

/// The place of a token in a line: the characters from `start` up to, but not
/// including, `end`, both delimiter pairs included.
pub struct Span {
    pub start: int,
    pub end: int,
}

/// `<<` stands at position `i` of `s`.
pub open spec fn opens_at(s: Seq<char>, i: int) -> bool {
    0 <= i && i + 1 < s.len() && s[i] == '<' && s[i + 1] == '<'
}

/// `>>` stands at position `i` of `s`.
pub open spec fn closes_at(s: Seq<char>, i: int) -> bool {
    0 <= i && i + 1 < s.len() && s[i] == '>' && s[i + 1] == '>'
}

/// No character of `s` from `from` up to `to` is a line feed.
pub open spec fn on_one_line(s: Seq<char>, from: int, to: int) -> bool {
    forall|k: int| from <= k < to ==> s[k] != '\n'
}

/// The characters of `s` from `start` up to `end` read `<<`, then characters
/// of one line, then `>>`.
pub open spec fn delimited(s: Seq<char>, start: int, end: int) -> bool {
    &&& opens_at(s, start)
    &&& start + 4 <= end
    &&& closes_at(s, end - 2)
    &&& on_one_line(s, start + 2, end - 2)
}

/// `t` is the first token of `s` at or after `from`: no token starts before
/// it, and none that starts where it does is shorter.
pub open spec fn is_first_token(s: Seq<char>, from: int, t: Span) -> bool {
    &&& from <= t.start
    &&& delimited(s, t.start, t.end)
    &&& forall|i: int, e: int| from <= i < t.start ==> !delimited(s, i, e)
    &&& forall|e: int| e < t.end ==> !delimited(s, t.start, e)
}

/// No token of `s` starts at or after `from`.
pub open spec fn no_token(s: Seq<char>, from: int) -> bool {
    forall|i: int, e: int| from <= i ==> !delimited(s, i, e)
}

/// The first token of `s` at or after `from`, if there is one.
pub open spec fn next_token(s: Seq<char>, from: int) -> Option<Span> {
    if exists|t: Span| is_first_token(s, from, t) {
        Some(choose|t: Span| is_first_token(s, from, t))
    } else {
        None
    }
}

/// The key of the token at `t`: what stands between its delimiters.
pub open spec fn key_of(s: Seq<char>, t: Span) -> Seq<char> {
    s.subrange(t.start + 2, t.end - 2)
}

/// The text of the token at `t`, delimiters included.
pub open spec fn raw_of(s: Seq<char>, t: Span) -> Seq<char> {
    s.subrange(t.start, t.end)
}

/// The tokens of `s` that start at or after `from`, from left to right.
pub open spec fn tokens_from(s: Seq<char>, from: int) -> Seq<Span>
    decreases s.len() - from,
{
    match next_token(s, from) {
        Some(t) => seq![t] + tokens_from(s, t.end),
        None => Seq::empty(),
    }
}

/// All tokens of `s`, from left to right.
pub open spec fn tokens(s: Seq<char>) -> Seq<Span> {
    tokens_from(s, 0)
}

/// A line has at most one first token from a given position.
pub proof fn lemma_first_token_unique(s: Seq<char>, from: int, a: Span, b: Span)
    requires
        is_first_token(s, from, a),
        is_first_token(s, from, b),
    ensures
        a == b,
{
    if a.start < b.start {
        assert(!delimited(s, a.start, a.end));
    }
    if b.start < a.start {
        assert(!delimited(s, b.start, b.end));
    }
    if a.end < b.end {
        assert(!delimited(s, b.start, a.end));
    }
    if b.end < a.end {
        assert(!delimited(s, a.start, b.end));
    }
}

/// What `next_token` gives is the first token, and where it gives none the
/// line holds none from there on.
pub proof fn lemma_next_token(s: Seq<char>, from: int)
    ensures
        match next_token(s, from) {
            Some(t) => is_first_token(s, from, t) && from < t.end <= s.len(),
            None => no_token(s, from),
        },
{
    if next_token(s, from) is None {
        assert forall|i: int, e: int| from <= i implies !delimited(s, i, e) by {
            if delimited(s, i, e) {
                lemma_token_exists(s, from, i, e);
            }
        }
    }
}

/// Where some token starts at or after `from`, there is a first one.
pub proof fn lemma_token_exists(s: Seq<char>, from: int, i: int, e: int)
    requires
        from <= i,
        delimited(s, i, e),
    ensures
        exists|t: Span| is_first_token(s, from, t),
    decreases i - from, e - i,
{
    if exists|i0: int, e0: int| from <= i0 < i && delimited(s, i0, e0) {
        let (i0, e0) = choose|i0: int, e0: int| from <= i0 < i && delimited(s, i0, e0);
        lemma_token_exists(s, from, i0, e0);
    } else if exists|e0: int| e0 < e && delimited(s, i, e0) {
        let e0 = choose|e0: int| e0 < e && delimited(s, i, e0);
        lemma_token_exists(s, from, i, e0);
    } else {
        assert(is_first_token(s, from, Span { start: i, end: e }));
    }
}

} // verus!
