//! Finding the tokens of a line.

use crate::grammar::{
    closes_at, delimited, is_first_token, key_of, lemma_first_token_unique, lemma_next_token,
    next_token, on_one_line, tokens, tokens_from, Span,
};
use crate::text::chars_of;
use vstd::prelude::*;
use vstd::string::StrSliceExecFns;
use vstd::string::StringExecFns;

verus! {

/// A token found in a line: where it stands and the key it names.
#[derive(Debug, Clone, PartialEq, Eq)]
pub struct Token {
    /// Position of the first `<` of the token, counted in characters.
    pub start: usize,
    /// Position just behind the last `>` of the token.
    pub end: usize,
    /// The lookup key: what stands between the delimiters.
    pub key: String,
}

impl Token {
    /// The place of the token in its line.
    pub open spec fn span(&self) -> Span {
        Span { start: self.start as int, end: self.end as int }
    }

    /// The token is the one that stands at its span in `s`.
    pub open spec fn lies_in(&self, s: Seq<char>) -> bool {
        delimited(s, self.start as int, self.end as int) && self.key@ == key_of(s, self.span())
    }
}

/// Looks for the first token of `chars` at or after position `from` and gives
/// its bounds `(start, end)`.
pub fn find_token(chars: &[char], from: usize) -> (found: Option<(usize, usize)>)
    ensures
        match found {
            Some((start, end)) => next_token(chars@, from as int) == Some(
                Span { start: start as int, end: end as int },
            ),
            None => next_token(chars@, from as int) is None,
        },
{
    let n: usize = chars.len();
    let ghost s = chars@;
    let mut i: usize = from;
    while i < n && n - i >= 4
        invariant
            n == s.len(),
            s == chars@,
            from <= i,
            forall|a: int, e: int| from <= a < i ==> !delimited(s, a, e),
        decreases n - i,
    {
        if chars[i] == '<' && chars[i + 1] == '<' {
            let mut j: usize = i + 2;
            while j + 1 < n && chars[j] != '\n' && !(chars[j] == '>' && chars[j + 1] == '>')
                invariant
                    n == s.len(),
                    s == chars@,
                    i + 2 <= j < n,
                    on_one_line(s, i + 2, j as int),
                    forall|c: int| i + 2 <= c < j ==> !closes_at(s, c),
                decreases n - j,
            {
                j = j + 1;
            }
            if j + 1 >= n {
                proof {
                    assert forall|a: int, e: int| i <= a implies !delimited(s, a, e) by {
                        if delimited(s, a, e) {
                            assert(closes_at(s, e - 2));
                        }
                    }
                    lemma_next_token(s, from as int);
                }
                return None;
            } else if chars[j] == '\n' {
                proof {
                    assert forall|a: int, e: int| i <= a <= j implies !delimited(s, a, e) by {
                        if delimited(s, a, e) {
                            assert(closes_at(s, e - 2));
                            if e - 2 > j && a + 2 <= j {
                                assert(s[j as int] != '\n');
                            }
                        }
                    }
                }
                i = j + 1;
            } else {
                let ghost t = Span { start: i as int, end: j + 2 };
                proof {
                    assert(delimited(s, t.start, t.end));
                    assert forall|e: int| e < t.end implies !delimited(s, t.start, e) by {
                        if delimited(s, t.start, e) {
                            assert(closes_at(s, e - 2));
                        }
                    }
                    assert(is_first_token(s, from as int, t));
                    lemma_next_token(s, from as int);
                    lemma_first_token_unique(s, from as int, t, next_token(s, from as int)->0);
                }
                return Some((i, j + 2));
            }
        } else {
            i = i + 1;
        }
    }
    proof {
        assert forall|a: int, e: int| from <= a implies !delimited(s, a, e) by {
            if delimited(s, a, e) {
                assert(closes_at(s, e - 2));
            }
        }
        lemma_next_token(s, from as int);
    }
    None
}

/// The places of the tokens in `found`.
pub open spec fn spans_of(found: Seq<Token>) -> Seq<Span> {
    found.map_values(|t: Token| t.span())
}

/// The keys of the tokens in `found`.
pub open spec fn keys_of(found: Seq<Token>) -> Seq<Seq<char>> {
    found.map_values(|t: Token| t.key@)
}

/// The keys that the tokens of `s` name, from left to right.
pub open spec fn token_keys(s: Seq<char>) -> Seq<Seq<char>> {
    tokens(s).map_values(|t: Span| key_of(s, t))
}

/// Finds every token of `line`, from left to right. A line without a token
/// gives an empty list: there is nothing to look up for it.
pub fn scan(line: &str) -> (found: Vec<Token>)
    ensures
        spans_of(found@) == tokens(line@),
        keys_of(found@) == token_keys(line@),
{
    let chars = chars_of(line);
    let ghost s = line@;
    let mut found: Vec<Token> = Vec::new();
    let mut from: usize = 0;
    loop
        invariant
            s == line@,
            s == chars@,
            from <= s.len(),
            tokens(s) == spans_of(found@) + tokens_from(s, from as int),
            forall|k: int| 0 <= k < found.len() ==> (#[trigger] found[k]).lies_in(s),
        decreases s.len() - from,
    {
        proof {
            lemma_next_token(s, from as int);
        }
        match find_token(chars.as_slice(), from) {
            Some((start, end)) => {
                let key = String::from_str(line.substring_char(start + 2, end - 2));
                let token = Token { start, end, key };
                proof {
                    assert(spans_of(found@.push(token)) == spans_of(found@).push(token.span()));
                    assert(spans_of(found@) + (seq![token.span()] + tokens_from(s, end as int))
                        == spans_of(found@).push(token.span()) + tokens_from(s, end as int));
                }
                found.push(token);
                from = end;
            },
            None => {
                proof {
                    assert(tokens(s) == spans_of(found@));
                    assert(keys_of(found@) == token_keys(s));
                }
                return found;
            },
        }
    }
}

} // verus!
