//! One line of a template, from scan to output, with the lookups made by a
//! resolver that the caller brings.

use crate::grammar::tokens;
use crate::laws::lemma_unresolved_unchanged;
use crate::render::{outcome_at, outcome_views, render, substitute, Resolution};
use crate::scanner::{keys_of, scan, token_keys, Token};
use vstd::prelude::*;

verus! {

/// `outcome` is something that `resolve` may give when it is asked for `key`.
pub open spec fn may_answer<F: Fn(&str) -> Resolution>(
    resolve: F,
    key: Seq<char>,
    outcome: Resolution,
) -> bool {
    exists|asked: &str| asked@ == key && call_ensures(resolve, (asked,), outcome)
}

/// `outcomes` holds one outcome for each of `keys`, in order, each of them
/// something that `resolve` may give for its key.
pub open spec fn answers<F: Fn(&str) -> Resolution>(
    resolve: F,
    keys: Seq<Seq<char>>,
    outcomes: Seq<Resolution>,
) -> bool {
    &&& outcomes.len() == keys.len()
    &&& forall|k: int| 0 <= k < keys.len() ==> may_answer(resolve, keys[k], #[trigger] outcomes[k])
}

/// Asks `resolve` for the key of each token in `found`, once for each and
/// from left to right.
pub fn resolve_all<F: Fn(&str) -> Resolution>(found: &[Token], resolve: F) -> (outcomes: Vec<
    Resolution,
>)
    requires
        forall|key: &str| call_requires(resolve, (key,)),
    ensures
        answers(resolve, keys_of(found@), outcomes@),
{
    let mut outcomes: Vec<Resolution> = Vec::new();
    let mut k: usize = 0;
    while k < found.len()
        invariant
            k <= found.len(),
            outcomes.len() == k,
            forall|key: &str| call_requires(resolve, (key,)),
            forall|j: int|
                0 <= j < k ==> may_answer(resolve, keys_of(found@)[j], #[trigger] outcomes[j]),
        decreases found.len() - k,
    {
        let outcome = resolve(found[k].key.as_str());
        assert(may_answer(resolve, keys_of(found@)[k as int], outcome));
        outcomes.push(outcome);
        k = k + 1;
    }
    outcomes
}

/// Renders one line: finds its tokens, asks `resolve` for the key of each,
/// from left to right, and puts each value in the place of its token. A token
/// for which `resolve` gives `NotFound` stays as it was written. A line
/// without a token comes out unchanged, and `resolve` is not asked at all.
pub fn scan_and_substitute<F: Fn(&str) -> Resolution>(line: &str, resolve: F) -> (out: String)
    requires
        forall|key: &str| call_requires(resolve, (key,)),
    ensures
        exists|outcomes: Seq<Resolution>|
            answers(resolve, token_keys(line@), outcomes) && out@ == render(
                line@,
                outcome_views(outcomes),
            ),
        tokens(line@).len() == 0 ==> out@ == line@,
        (forall|key: &str, outcome: Resolution|
            call_ensures(resolve, (key,), outcome) ==> outcome == Resolution::NotFound) ==> out@
            == line@,
{
    let found = scan(line);
    let outcomes = resolve_all(found.as_slice(), resolve);
    let out = substitute(line, outcomes.as_slice());
    proof {
        let outs = outcome_views(outcomes@);
        assert(answers(resolve, token_keys(line@), outcomes@));
        if tokens(line@).len() == 0 {
            lemma_unresolved_unchanged(line@, outs);
        }
        if forall|key: &str, outcome: Resolution|
            call_ensures(resolve, (key,), outcome) ==> outcome == Resolution::NotFound {
            assert forall|k: int| 0 <= k < tokens(line@).len() implies outcome_at(outs, k) is None by {
                assert(may_answer(resolve, token_keys(line@)[k], outcomes[k]));
            }
            lemma_unresolved_unchanged(line@, outs);
        }
    }
    out
}

} // verus!
