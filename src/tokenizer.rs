use vstd::prelude::*;
use vstd::slice::slice_subrange;

use crate::text::{char_is_white, is_white};

verus! {

/// A token together with the line on which it starts (0-based).
pub struct TokenWithLine {
    pub contents: String,
    pub line_num: usize,
}

/// A maximal run of non-whitespace characters, bare or tagged with its line.
pub enum Token {
    TokenStr(String),
    TokenStrLine(TokenWithLine),
}

/// What a token stands for: its text and, when lines are tracked, its line.
pub struct TokenView {
    pub text: Seq<char>,
    pub line: Option<nat>,
}

impl View for Token {
    type V = TokenView;

    open spec fn view(&self) -> TokenView {
        match self {
            Token::TokenStr(s) => TokenView { text: s@, line: None },
            Token::TokenStrLine(t) => TokenView { text: t.contents@, line: Some(t.line_num as nat) },
        }
    }
}

impl Token {
    /// The text of the token, whatever its kind.
    pub fn contents(&self) -> (r: &String)
        ensures
            r@ == self@.text,
    {
        match self {
            Token::TokenStr(s) => s,
            Token::TokenStrLine(t) => &t.contents,
        }
    }
}

pub open spec fn views(tokens: Seq<Token>) -> Seq<TokenView> {
    tokens.map_values(|t: Token| t@)
}

/// The first position at or after `i` whose whiteness differs from `white`,
/// or the end of `s`.
pub open spec fn run_end(s: Seq<char>, i: int, white: bool) -> int
    decreases s.len() - i,
{
    if 0 <= i < s.len() && is_white(s[i]) == white {
        run_end(s, i + 1, white)
    } else {
        i
    }
}

pub proof fn lemma_run_end(s: Seq<char>, i: int, white: bool)
    requires
        0 <= i <= s.len(),
    ensures
        i <= run_end(s, i, white) <= s.len(),
        forall|k: int| i <= k < run_end(s, i, white) ==> is_white(#[trigger] s[k]) == white,
        run_end(s, i, white) < s.len() ==> is_white(s[run_end(s, i, white)]) != white,
    decreases s.len() - i,
{
    if i < s.len() && is_white(s[i]) == white {
        lemma_run_end(s, i + 1, white);
    }
}

/// The spans `(start, end)` of the tokens of `s` that start at or after `i`:
/// the maximal runs of non-whitespace characters, left to right.
pub open spec fn spans_from(s: Seq<char>, i: int) -> Seq<(int, int)>
    decreases s.len() - i,
{
    if i < 0 || i >= s.len() {
        Seq::empty()
    } else if is_white(s[i]) {
        spans_from(s, i + 1)
    } else {
        let end = run_end(s, i + 1, false);
        proof {
            lemma_run_end(s, i + 1, false);
        }
        seq![(i, end)] + spans_from(s, end)
    }
}

/// The number of line breaks in `s`.
pub open spec fn newlines(s: Seq<char>) -> nat
    decreases s.len(),
{
    if s.len() == 0 {
        0
    } else {
        newlines(s.drop_last()) + if s.last() == '\n' {
            1nat
        } else {
            0nat
        }
    }
}

/// The token of `s` that occupies `span`.
pub open spec fn token_at(s: Seq<char>, span: (int, int), line_numbers: bool) -> TokenView {
    TokenView {
        text: s.subrange(span.0, span.1),
        line: if line_numbers {
            Some(newlines(s.take(span.0)))
        } else {
            None
        },
    }
}

/// The tokens of `s` from position `i` on.
pub open spec fn tokens_from(s: Seq<char>, i: int, line_numbers: bool) -> Seq<TokenView> {
    spans_from(s, i).map_values(|span: (int, int)| token_at(s, span, line_numbers))
}

/// The tokens of `s`, in source order.
pub open spec fn tokenize(s: Seq<char>, line_numbers: bool) -> Seq<TokenView> {
    tokens_from(s, 0, line_numbers)
}

/// The texts of the tokens of `s`.
pub open spec fn token_texts(s: Seq<char>) -> Seq<Seq<char>> {
    tokenize(s, false).map_values(|t: TokenView| t.text)
}

/// `words` with a single space between each two.
pub open spec fn join_spaced(words: Seq<Seq<char>>) -> Seq<char>
    decreases words.len(),
{
    if words.len() == 0 {
        Seq::empty()
    } else if words.len() == 1 {
        words[0]
    } else {
        words[0] + seq![' '] + join_spaced(words.drop_first())
    }
}

/// Each item of `words` is non-empty and holds no whitespace.
pub open spec fn are_words(words: Seq<Seq<char>>) -> bool {
    forall|k: int|
        0 <= k < words.len() ==> (#[trigger] words[k]).len() > 0 && forall|j: int|
            0 <= j < words[k].len() ==> !is_white(#[trigger] words[k][j])
}

spec fn texts_from(s: Seq<char>, i: int) -> Seq<Seq<char>> {
    spans_from(s, i).map_values(|span: (int, int)| s.subrange(span.0, span.1))
}

proof fn lemma_run_end_at(s: Seq<char>, a: int, b: int)
    requires
        0 <= a <= b <= s.len(),
        forall|j: int| a <= j < b ==> !is_white(#[trigger] s[j]),
        b == s.len() || is_white(s[b]),
    ensures
        run_end(s, a, false) == b,
    decreases b - a,
{
    if a < b {
        lemma_run_end_at(s, a + 1, b);
    }
}

proof fn lemma_texts_are_words(s: Seq<char>, i: int)
    requires
        0 <= i <= s.len(),
    ensures
        are_words(texts_from(s, i)),
    decreases s.len() - i,
{
    if i < s.len() {
        if is_white(s[i]) {
            lemma_texts_are_words(s, i + 1);
            assert(texts_from(s, i) == texts_from(s, i + 1));
        } else {
            let end = run_end(s, i + 1, false);
            lemma_run_end(s, i + 1, false);
            lemma_texts_are_words(s, end);
            let w = s.subrange(i, end);
            assert(texts_from(s, i) =~= seq![w] + texts_from(s, end));
            assert forall|j: int| 0 <= j < w.len() implies !is_white(#[trigger] w[j]) by {
                assert(w[j] == s[i + j]);
            }
            let ts = texts_from(s, i);
            assert forall|k: int| 0 <= k < ts.len() implies (#[trigger] ts[k]).len() > 0
                && forall|j: int| 0 <= j < ts[k].len() ==> !is_white(#[trigger] ts[k][j]) by {
                if k > 0 {
                    assert(ts[k] == texts_from(s, end)[k - 1]);
                }
            }
        }
    }
}

/// Where the rest of `s` from `i` on is `words` joined by spaces, the tokens
/// found from `i` on are those words.
proof fn lemma_texts_of_joined(s: Seq<char>, i: int, words: Seq<Seq<char>>)
    requires
        0 <= i <= s.len(),
        are_words(words),
        s.subrange(i, s.len() as int) == join_spaced(words),
    ensures
        texts_from(s, i) == words,
    decreases words.len(),
{
    let rest = s.subrange(i, s.len() as int);
    if words.len() == 0 {
        assert(rest.len() == 0);
        assert(texts_from(s, i) =~= words);
    } else {
        let w = words[0];
        let k = w.len() as int;
        let tail = words.drop_first();
        if words.len() == 1 {
            assert(rest == w);
        } else {
            assert(rest == w + seq![' '] + join_spaced(tail));
        }
        assert forall|j: int| i <= j < i + k implies !is_white(#[trigger] s[j]) by {
            assert(s[j] == rest[j - i]);
            assert(rest[j - i] == w[j - i]);
        }
        if words.len() > 1 {
            assert(s[i + k] == rest[k]);
            assert(is_white(' '));
        }
        lemma_run_end_at(s, i + 1, i + k);
        assert(s.subrange(i, i + k) =~= w) by {
            assert forall|j: int| 0 <= j < k implies s.subrange(i, i + k)[j] == w[j] by {
                assert(s[i + j] == rest[j]);
            }
        }
        assert(texts_from(s, i) =~= seq![w] + texts_from(s, i + k));
        if words.len() == 1 {
            assert(texts_from(s, i + k) =~= Seq::<Seq<char>>::empty());
            assert(texts_from(s, i) =~= words);
        } else {
            assert(texts_from(s, i + k) == texts_from(s, i + k + 1));
            assert(are_words(tail)) by {
                assert forall|m: int| 0 <= m < tail.len() implies (#[trigger] tail[m]).len() > 0
                    && forall|j: int| 0 <= j < tail[m].len() ==> !is_white(#[trigger] tail[m][j]) by {
                    assert(tail[m] == words[m + 1]);
                }
            }
            assert(s.subrange(i + k + 1, s.len() as int) =~= join_spaced(tail)) by {
                assert forall|j: int| 0 <= j < join_spaced(tail).len() implies s.subrange(
                    i + k + 1,
                    s.len() as int,
                )[j] == join_spaced(tail)[j] by {
                    assert(s[i + k + 1 + j] == rest[k + 1 + j]);
                }
            }
            lemma_texts_of_joined(s, i + k + 1, tail);
            assert(texts_from(s, i) =~= words);
        }
    }
}

/// No token is empty, and no token holds a whitespace character.
pub proof fn lemma_tokens_are_words(s: Seq<char>)
    ensures
        are_words(token_texts(s)),
{
    assert(token_texts(s) =~= texts_from(s, 0));
    lemma_texts_are_words(s, 0);
}

/// Joining the tokens of a text with single spaces and tokenizing the result
/// gives back the same token texts.
pub proof fn lemma_retokenize_joined(s: Seq<char>)
    ensures
        token_texts(join_spaced(token_texts(s))) == token_texts(s),
{
    let words = token_texts(s);
    let joined = join_spaced(words);
    assert(words =~= texts_from(s, 0));
    assert(token_texts(joined) =~= texts_from(joined, 0));
    lemma_texts_are_words(s, 0);
    assert(joined.subrange(0, joined.len() as int) =~= joined);
    lemma_texts_of_joined(joined, 0, words);
}

proof fn lemma_newlines_step(s: Seq<char>, i: int)
    requires
        0 <= i < s.len(),
    ensures
        newlines(s.take(i + 1)) == newlines(s.take(i)) + if s[i] == '\n' {
            1nat
        } else {
            0nat
        },
{
    assert(s.take(i + 1).drop_last() =~= s.take(i));
}

/// A run without whitespace holds no line break.
proof fn lemma_newlines_in_run(s: Seq<char>, a: int, b: int)
    requires
        0 <= a <= b <= s.len(),
        forall|j: int| a <= j < b ==> !is_white(#[trigger] s[j]),
    ensures
        newlines(s.take(b)) == newlines(s.take(a)),
    decreases b - a,
{
    if a < b {
        lemma_newlines_in_run(s, a, b - 1);
        lemma_newlines_step(s, b - 1);
    }
}

/// Builds a `String` that holds the given characters.
pub fn char_slice_to_str(char_slice: &[char]) -> (s: String)
    ensures
        s@ == char_slice@,
{
    let mut s = String::new();
    let mut i: usize = 0;
    while i < char_slice.len()
        invariant
            i <= char_slice@.len(),
            s@ == char_slice@.take(i as int),
        decreases char_slice@.len() - i,
    {
        s.push(char_slice[i]);
        i += 1;
        assert(char_slice@.take(i as int) =~= char_slice@.take(i - 1).push(char_slice@[i - 1]));
    }
    assert(char_slice@.take(i as int) =~= char_slice@);
    s
}

pub(crate) fn chars_of(text: &str) -> (r: Vec<char>)
    ensures
        r@ == text@,
{
    let mut r: Vec<char> = Vec::new();
    for c in it: text.chars()
        invariant
            it.seq() == text@,
            r@ == it.seq().take(it.index() as int),
    {
        r.push(c);
    }
    r
}

/// Splits `file_contents` into its whitespace-separated tokens, in source
/// order; with `line_numbers`, each token carries the line on which it starts.
pub fn parse_to_tokens(file_contents: &str, line_numbers: bool) -> (tokens: Vec<Token>)
    ensures
        views(tokens@) == tokenize(file_contents@, line_numbers),
{
    let ghost s = file_contents@;
    let it = chars_of(file_contents);
    let len = it.len();
    let mut tokens: Vec<Token> = Vec::new();
    let mut ind: usize = 0;
    let mut curr_line_num: usize = 0;

    while ind < len
        invariant
            it@ == s,
            len == s.len(),
            ind <= len,
            curr_line_num <= ind,
            line_numbers ==> curr_line_num == newlines(s.take(ind as int)),
            views(tokens@) + tokens_from(s, ind as int, line_numbers) == tokenize(s, line_numbers),
        ensures
            ind == len,
            views(tokens@) + tokens_from(s, ind as int, line_numbers) == tokenize(s, line_numbers),
        decreases len - ind,
    {
        let ghost ind0 = ind;
        // skip a run of whitespace, counting the line breaks in it
        while ind < len
            invariant
                it@ == s,
                len == s.len(),
                ind0 <= ind <= len,
                curr_line_num <= ind,
                line_numbers ==> curr_line_num == newlines(s.take(ind as int)),
                views(tokens@) + tokens_from(s, ind as int, line_numbers) == tokenize(
                    s,
                    line_numbers,
                ),
            ensures
                ind < len ==> !is_white(s[ind as int]),
            decreases len - ind,
        {
            let c = it[ind];
            if !char_is_white(c) {
                break ;
            }
            proof {
                lemma_newlines_step(s, ind as int);
            }
            if line_numbers && c == '\n' {
                curr_line_num += 1;
            }
            ind += 1;
        }

        if ind >= len {
            break ;
        }

        // take the run of non-whitespace that starts here
        let curr_slice_start = ind;
        ind += 1;
        while ind < len
            invariant
                it@ == s,
                len == s.len(),
                curr_slice_start < ind <= len,
                run_end(s, ind as int, false) == run_end(s, curr_slice_start + 1, false),
            ensures
                ind == run_end(s, curr_slice_start + 1, false),
            decreases len - ind,
        {
            if char_is_white(it[ind]) {
                break ;
            }
            ind += 1;
        }

        let ghost span = (curr_slice_start as int, ind as int);
        let contents = char_slice_to_str(slice_subrange(it.as_slice(), curr_slice_start, ind));
        let token = if line_numbers {
            Token::TokenStrLine(TokenWithLine { contents, line_num: curr_line_num })
        } else {
            Token::TokenStr(contents)
        };
        assert(token@ == token_at(s, span, line_numbers));
        proof {
            assert(spans_from(s, span.0) == seq![span] + spans_from(s, span.1));
            assert(tokens_from(s, span.0, line_numbers) =~= seq![token@] + tokens_from(
                s,
                span.1,
                line_numbers,
            ));
            assert(views(tokens@.push(token)) =~= views(tokens@).push(token@));
            // no line break lies inside a token
            lemma_run_end(s, span.0 + 1, false);
            lemma_newlines_in_run(s, span.0, span.1);
        }
        tokens.push(token);
    }
    proof {
        assert(spans_from(s, ind as int) == Seq::<(int, int)>::empty());
        assert(tokens_from(s, ind as int, line_numbers) =~= Seq::<TokenView>::empty());
        assert(views(tokens@) + Seq::<TokenView>::empty() =~= views(tokens@));
    }
    tokens
}

} // verus!
