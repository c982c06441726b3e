//! What holds of every line and every run of lookups.

use crate::grammar::{
    delimited, lemma_next_token, next_token, no_token, opens_at, raw_of, tokens, tokens_from,
};
use crate::render::{outcome_at, render, render_from, replacement};
use vstd::prelude::*;

verus! {

/// What the output holds before the replacement of token number `k`: the text
/// in front of the first token, then for each earlier token its replacement
/// and the text that follows it up to the next token.
pub open spec fn head(s: Seq<char>, outs: Seq<Option<Seq<char>>>, k: int) -> Seq<char>
    decreases k,
{
    if k <= 0 {
        s.subrange(0, tokens(s)[0].start)
    } else {
        head(s, outs, k - 1) + replacement(s, tokens(s)[k - 1], outcome_at(outs, k - 1))
            + s.subrange(tokens(s)[k - 1].end, tokens(s)[k].start)
    }
}

/// What the output holds behind the replacement of token number `k`.
pub open spec fn tail(s: Seq<char>, outs: Seq<Option<Seq<char>>>, k: int) -> Seq<char> {
    render_from(s, tokens(s)[k].end, outs, k + 1)
}

/// The tokens behind token number `j` of those from `from` on are the tokens
/// found from its end on.
pub proof fn lemma_tokens_resume(s: Seq<char>, from: int, j: int)
    requires
        0 <= j < tokens_from(s, from).len(),
    ensures
        tokens_from(s, tokens_from(s, from)[j].end) == tokens_from(s, from).skip(j + 1),
    decreases j,
{
    lemma_next_token(s, from);
    let t = next_token(s, from)->0;
    let rest = tokens_from(s, t.end);
    assert(tokens_from(s, from) == seq![t] + rest);
    if j == 0 {
        assert(tokens_from(s, from).skip(1) == rest);
    } else {
        lemma_tokens_resume(s, t.end, j - 1);
        assert(tokens_from(s, from)[j] == rest[j - 1]);
        assert(tokens_from(s, from).skip(j + 1) == rest.skip(j));
    }
}

/// Token number `k` of a line is the first token found from the end of the
/// token before it, or from the start of the line where `k` is 0.
pub proof fn lemma_token_is_next(s: Seq<char>, k: int)
    requires
        0 <= k < tokens(s).len(),
    ensures
        next_token(s, if k == 0 { 0 } else { tokens(s)[k - 1].end }) == Some(tokens(s)[k]),
{
    if k > 0 {
        lemma_tokens_resume(s, 0, k - 1);
        let from = tokens(s)[k - 1].end;
        assert(tokens_from(s, from) == tokens(s).skip(k));
        assert(tokens(s).skip(k)[0] == tokens(s)[k]);
        assert(tokens_from(s, from).len() > 0);
        assert(tokens_from(s, from)[0] == next_token(s, from)->0);
    } else {
        assert(tokens_from(s, 0)[0] == next_token(s, 0)->0);
    }
}

/// Tokens are well formed, lie within the line, and come one after the other
/// without overlapping.
pub proof fn lemma_tokens_in_order(s: Seq<char>, k: int)
    requires
        0 <= k < tokens(s).len(),
    ensures
        delimited(s, tokens(s)[k].start, tokens(s)[k].end),
        0 <= tokens(s)[k].start,
        tokens(s)[k].end <= s.len(),
        k > 0 ==> tokens(s)[k - 1].end <= tokens(s)[k].start,
{
    lemma_token_is_next(s, k);
    lemma_next_token(s, if k == 0 { 0 } else { tokens(s)[k - 1].end });
}

/// The output is the head before token number `k`, then the replacement of
/// that token, then the tail behind it. So the place of a resolved token holds
/// exactly its value, and the place of an unresolved one exactly the token as
/// it was written, both delimiter pairs included.
pub proof fn lemma_token_replaced(s: Seq<char>, outs: Seq<Option<Seq<char>>>, k: int)
    requires
        0 <= k < tokens(s).len(),
    ensures
        render(s, outs) == head(s, outs, k) + replacement(s, tokens(s)[k], outcome_at(outs, k))
            + tail(s, outs, k),
        outcome_at(outs, k) matches Some(value) ==> render(s, outs) == head(s, outs, k) + value
            + tail(s, outs, k),
        outcome_at(outs, k) is None ==> render(s, outs) == head(s, outs, k) + raw_of(
            s,
            tokens(s)[k],
        ) + tail(s, outs, k),
    decreases k,
{
    lemma_token_is_next(s, k);
    if k > 0 {
        lemma_token_replaced(s, outs, k - 1);
        let before = head(s, outs, k - 1) + replacement(
            s,
            tokens(s)[k - 1],
            outcome_at(outs, k - 1),
        );
        let gap = s.subrange(tokens(s)[k - 1].end, tokens(s)[k].start);
        let this = replacement(s, tokens(s)[k], outcome_at(outs, k));
        assert(render(s, outs) == before + (gap + this + tail(s, outs, k)));
        assert(before + (gap + this + tail(s, outs, k)) == (before + gap) + this + tail(
            s,
            outs,
            k,
        ));
    }
}

/// Rendering from `from` on depends only on the outcomes of the tokens found
/// from there on.
pub proof fn lemma_render_from_depends(
    s: Seq<char>,
    from: int,
    a: Seq<Option<Seq<char>>>,
    b: Seq<Option<Seq<char>>>,
    k: int,
)
    requires
        forall|j: int|
            k <= j < k + tokens_from(s, from).len() ==> outcome_at(a, j) == outcome_at(b, j),
    ensures
        render_from(s, from, a, k) == render_from(s, from, b, k),
    decreases s.len() - from,
{
    lemma_next_token(s, from);
    match next_token(s, from) {
        Some(t) => {
            assert(tokens_from(s, from) == seq![t] + tokens_from(s, t.end));
            lemma_render_from_depends(s, t.end, a, b, k + 1);
        },
        None => {},
    }
}

/// The head before token number `k` depends only on the outcomes of the
/// tokens before it.
pub proof fn lemma_head_depends(
    s: Seq<char>,
    a: Seq<Option<Seq<char>>>,
    b: Seq<Option<Seq<char>>>,
    k: int,
)
    requires
        forall|j: int| 0 <= j < k ==> outcome_at(a, j) == outcome_at(b, j),
    ensures
        head(s, a, k) == head(s, b, k),
    decreases k,
{
    if k > 0 {
        lemma_head_depends(s, a, b, k - 1);
    }
}

/// The outcome of one token touches nothing but that token's place: two runs
/// over a line whose outcomes differ for token number `k` alone give outputs
/// with the same head before it and the same tail behind it. Which tokens a
/// line holds does not depend on any outcome.
pub proof fn lemma_independent(
    s: Seq<char>,
    a: Seq<Option<Seq<char>>>,
    b: Seq<Option<Seq<char>>>,
    k: int,
)
    requires
        0 <= k < tokens(s).len(),
        forall|j: int| 0 <= j < tokens(s).len() && j != k ==> outcome_at(a, j) == outcome_at(b, j),
    ensures
        head(s, a, k) == head(s, b, k),
        tail(s, a, k) == tail(s, b, k),
        render(s, a) == head(s, a, k) + replacement(s, tokens(s)[k], outcome_at(a, k)) + tail(
            s,
            a,
            k,
        ),
        render(s, b) == head(s, a, k) + replacement(s, tokens(s)[k], outcome_at(b, k)) + tail(
            s,
            a,
            k,
        ),
{
    lemma_head_depends(s, a, b, k);
    lemma_tokens_resume(s, 0, k);
    assert(tokens_from(s, tokens(s)[k].end).len() == tokens(s).len() - (k + 1));
    lemma_render_from_depends(s, tokens(s)[k].end, a, b, k + 1);
    lemma_token_replaced(s, a, k);
    lemma_token_replaced(s, b, k);
}

/// A line that holds no token comes out as it went in, whatever outcomes are
/// at hand, and there is nothing to look up for it.
pub proof fn lemma_plain_line_unchanged(s: Seq<char>, outs: Seq<Option<Seq<char>>>)
    requires
        forall|i: int, e: int| !delimited(s, i, e),
    ensures
        tokens(s).len() == 0,
        render(s, outs) == s,
{
    lemma_next_token(s, 0);
    assert(s.subrange(0, s.len() as int) == s);
}

/// A line without `<<` holds no token.
pub proof fn lemma_no_opening_no_token(s: Seq<char>)
    requires
        forall|i: int| !opens_at(s, i),
    ensures
        no_token(s, 0),
{
}

/// Where no token of the line was resolved, the output is the line.
pub proof fn lemma_unresolved_unchanged(s: Seq<char>, outs: Seq<Option<Seq<char>>>)
    requires
        forall|k: int| 0 <= k < tokens(s).len() ==> outcome_at(outs, k) is None,
    ensures
        render(s, outs) == s,
{
    lemma_unresolved_from(s, 0, outs, 0);
    assert(s.subrange(0, s.len() as int) == s);
}

/// Where no token from `from` on was resolved, the rest of the line from
/// there on comes out as it is.
pub proof fn lemma_unresolved_from(
    s: Seq<char>,
    from: int,
    outs: Seq<Option<Seq<char>>>,
    k: int,
)
    requires
        0 <= from <= s.len(),
        forall|j: int| k <= j < k + tokens_from(s, from).len() ==> outcome_at(outs, j) is None,
    ensures
        render_from(s, from, outs, k) == s.subrange(from, s.len() as int),
    decreases s.len() - from,
{
    lemma_next_token(s, from);
    match next_token(s, from) {
        Some(t) => {
            assert(tokens_from(s, from) == seq![t] + tokens_from(s, t.end));
            lemma_unresolved_from(s, t.end, outs, k + 1);
            assert(outcome_at(outs, k) is None);
            assert(s.subrange(from, t.start) + s.subrange(t.start, t.end) + s.subrange(
                t.end,
                s.len() as int,
            ) == s.subrange(from, s.len() as int));
        },
        None => {},
    }
}

/// Running over an output that holds no token changes nothing.
pub proof fn lemma_rerun_is_noop(
    s: Seq<char>,
    outs: Seq<Option<Seq<char>>>,
    again: Seq<Option<Seq<char>>>,
)
    requires
        forall|i: int, e: int| !delimited(render(s, outs), i, e),
    ensures
        render(render(s, outs), again) == render(s, outs),
{
    lemma_plain_line_unchanged(render(s, outs), again);
}

} // verus!
