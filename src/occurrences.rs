use vstd::prelude::*;

use crate::matcher::{match_str, MatchMode, Script};
use crate::tokenizer::{views, Token, TokenView};

verus! {

/// The tokens whose text contains `pattern` under `mode`, in their order.
pub open spec fn occurrences(tokens: Seq<TokenView>, pattern: Seq<char>, mode: MatchMode) -> Seq<
    TokenView,
> {
    tokens.filter(|t: TokenView| mode.matches(t.text, pattern))
}

/// `idx` tells, for each item of `sub` in turn, the position in `s` that it
/// was taken from; the positions strictly increase.
pub open spec fn picks(idx: Seq<int>, sub: Seq<TokenView>, s: Seq<TokenView>) -> bool {
    &&& idx.len() == sub.len()
    &&& forall|k: int| 0 <= k < idx.len() ==> 0 <= #[trigger] idx[k] < s.len() && sub[k] == s[idx[k]]
    &&& forall|k1: int, k2: int| 0 <= k1 < k2 < idx.len() ==> #[trigger] idx[k1] < #[trigger] idx[k2]
}

/// The positions of the tokens that contain `pattern` under `mode`.
spec fn occurrence_positions(tokens: Seq<TokenView>, pattern: Seq<char>, mode: MatchMode) -> Seq<int>
    decreases tokens.len(),
{
    if tokens.len() == 0 {
        Seq::empty()
    } else {
        let rest = occurrence_positions(tokens.drop_last(), pattern, mode);
        if mode.matches(tokens.last().text, pattern) {
            rest.push(tokens.len() - 1)
        } else {
            rest
        }
    }
}

/// The occurrences are the tokens themselves, taken in their order: each
/// token that contains the pattern appears once, at its own position, and no
/// other token appears.
pub proof fn lemma_occurrences_keep_order(
    tokens: Seq<TokenView>,
    pattern: Seq<char>,
    mode: MatchMode,
)
    ensures
        exists|idx: Seq<int>|
            {
                &&& picks(idx, occurrences(tokens, pattern, mode), tokens)
                &&& forall|i: int|
                    0 <= i < tokens.len() ==> (mode.matches(tokens[i].text, pattern)
                        <==> #[trigger] idx.contains(i))
            },
{
    lemma_positions(tokens, pattern, mode);
}

proof fn lemma_positions(tokens: Seq<TokenView>, pattern: Seq<char>, mode: MatchMode)
    ensures
        picks(
            occurrence_positions(tokens, pattern, mode),
            occurrences(tokens, pattern, mode),
            tokens,
        ),
        forall|i: int|
            0 <= i < tokens.len() ==> (mode.matches(tokens[i].text, pattern)
                <==> #[trigger] occurrence_positions(tokens, pattern, mode).contains(i)),
    decreases tokens.len(),
{
    reveal(Seq::filter);
    if tokens.len() > 0 {
        let init = tokens.drop_last();
        let n = tokens.len() - 1;
        lemma_positions(init, pattern, mode);
        let idx0 = occurrence_positions(init, pattern, mode);
        let idx = occurrence_positions(tokens, pattern, mode);
        assert(occurrences(tokens, pattern, mode) == if mode.matches(tokens.last().text, pattern) {
            occurrences(init, pattern, mode).push(tokens.last())
        } else {
            occurrences(init, pattern, mode)
        });
        assert forall|i: int|
            0 <= i < tokens.len() implies (mode.matches(tokens[i].text, pattern)
                <==> #[trigger] idx.contains(i)) by {
            if i < n {
                assert(init[i] == tokens[i]);
                if idx.contains(i) && !idx0.contains(i) {
                    let k = choose|k: int| 0 <= k < idx.len() && idx[k] == i;
                    assert(k == idx0.len());
                }
                if idx0.contains(i) {
                    let k = choose|k: int| 0 <= k < idx0.len() && idx0[k] == i;
                    assert(idx[k] == i);
                }
            } else {
                if mode.matches(tokens[i].text, pattern) {
                    assert(idx[idx.len() - 1] == i);
                } else {
                    assert(!idx0.contains(i));
                }
            }
        }
    }
}

/// Keeps, in order, the tokens whose text contains `pattern` under `mode`;
/// line tags are carried along and play no part in matching.
pub fn collect_occurrences(tokens: Vec<Token>, pattern: &str, mode: MatchMode) -> (r: Vec<Token>)
    ensures
        views(r@) == occurrences(views(tokens@), pattern@, mode),
{
    let ghost all = views(tokens@);
    let mut occurences: Vec<Token> = Vec::new();
    for token in it: tokens
        invariant
            all == views(it.seq()),
            views(occurences@) == occurrences(all.take(it.index() as int), pattern@, mode),
    {
        let ghost i = it.index() as int;
        let ghost tv = token@;
        let text = token.contents().as_str();
        let keep = match_str(text, pattern, mode);
        assert(text@ == tv.text);
        assert(keep == mode.matches(tv.text, pattern@));
        proof {
            reveal(Seq::filter);
            assert(all.take(i + 1).drop_last() =~= all.take(i));
            assert(all[i] == tv);
            assert(all.take(i + 1).last() == tv);
            assert(occurrences(all.take(i + 1), pattern@, mode) == if keep {
                occurrences(all.take(i), pattern@, mode).push(tv)
            } else {
                occurrences(all.take(i), pattern@, mode)
            });
        }
        if keep {
            occurences.push(token);
            assert(views(occurences@) =~= views(occurences@.drop_last()).push(tv));
        }
    }
    assert(all.take(all.len() as int) =~= all);
    occurences
}

/// Keeps, in order, the tokens whose UTF-8 bytes contain those of `pattern`;
/// with `ignore_case`, Latin letters match either case.
pub fn find_occurences(tokens: Vec<Token>, pattern: &String, ignore_case: bool) -> (r: Vec<Token>)
    ensures
        views(r@) == occurrences(
            views(tokens@),
            pattern@,
            MatchMode { ignore_case, script: Script::Ascii },
        ),
{
    collect_occurrences(tokens, pattern.as_str(), MatchMode { ignore_case, script: Script::Ascii })
}

} // verus!
