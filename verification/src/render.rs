//! Putting the outcomes of the lookups back into a line.

use crate::grammar::{lemma_next_token, next_token, raw_of, Span};
use crate::scanner::find_token;
use crate::text::chars_of;
use vstd::prelude::*;
use vstd::string::StrSliceExecFns;
use vstd::string::StringExecFns;

verus! {

/// What a lookup of one token's key came to.
#[derive(Debug, Clone, PartialEq, Eq)]
pub enum Resolution {
    /// The store holds a value for the key.
    Resolved(String),
    /// No value could be had; the token stays as it is.
    NotFound,
}

impl View for Resolution {
    type V = Option<Seq<char>>;

    open spec fn view(&self) -> Option<Seq<char>> {
        match self {
            Resolution::Resolved(value) => Some(value@),
            Resolution::NotFound => None,
        }
    }
}

/// The outcomes in `outcomes`, each as the value that it holds, if any.
pub open spec fn outcome_views(outcomes: Seq<Resolution>) -> Seq<Option<Seq<char>>> {
    outcomes.map_values(|r: Resolution| r@)
}

/// The outcome for the token number `k` of a line. A token for which no
/// outcome was given counts as not found.
pub open spec fn outcome_at(outs: Seq<Option<Seq<char>>>, k: int) -> Option<Seq<char>> {
    if 0 <= k < outs.len() {
        outs[k]
    } else {
        None
    }
}

/// What stands in the output in place of the token at `t`: the value where
/// there is one, else the token itself, delimiters included.
pub open spec fn replacement(s: Seq<char>, t: Span, outcome: Option<Seq<char>>) -> Seq<char> {
    match outcome {
        Some(value) => value,
        None => raw_of(s, t),
    }
}

/// The rest of `s` from position `from` on, with each token replaced. The
/// first token found from there is token number `k` of the line.
pub open spec fn render_from(
    s: Seq<char>,
    from: int,
    outs: Seq<Option<Seq<char>>>,
    k: int,
) -> Seq<char>
    decreases s.len() - from,
{
    match next_token(s, from) {
        Some(t) => s.subrange(from, t.start) + replacement(s, t, outcome_at(outs, k))
            + render_from(s, t.end, outs, k + 1),
        None => s.subrange(from, s.len() as int),
    }
}

/// The line `s` with its tokens replaced, the token number `k` according to
/// `outs[k]`. What stands between the tokens is kept as it is.
pub open spec fn render(s: Seq<char>, outs: Seq<Option<Seq<char>>>) -> Seq<char> {
    render_from(s, 0, outs, 0)
}

/// Replaces the tokens of `line`, from left to right: the token number `k` by
/// the value of `outcomes[k]`, or by itself where that outcome is
/// `NotFound` or missing. Outcomes beyond the last token are not used.
pub fn substitute(line: &str, outcomes: &[Resolution]) -> (out: String)
    ensures
        out@ == render(line@, outcome_views(outcomes@)),
{
    let chars = chars_of(line);
    let n: usize = chars.len();
    let ghost s = line@;
    let ghost outs = outcome_views(outcomes@);
    let mut out = String::new();
    let mut from: usize = 0;
    let mut k: usize = 0;
    loop
        invariant
            s == line@,
            s == chars@,
            n == s.len(),
            outs == outcome_views(outcomes@),
            k <= from <= n,
            render(s, outs) == out@ + render_from(s, from as int, outs, k as int),
        decreases n - from,
    {
        proof {
            lemma_next_token(s, from as int);
        }
        match find_token(chars.as_slice(), from) {
            Some((start, end)) => {
                out.append(line.substring_char(from, start));
                if k < outcomes.len() {
                    match &outcomes[k] {
                        Resolution::Resolved(value) => {
                            out.append(value.as_str());
                        },
                        Resolution::NotFound => {
                            out.append(line.substring_char(start, end));
                        },
                    }
                } else {
                    out.append(line.substring_char(start, end));
                }
                from = end;
                k = k + 1;
            },
            None => {
                out.append(line.substring_char(from, n));
                return out;
            },
        }
    }
}

} // verus!
