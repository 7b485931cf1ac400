use vstd::prelude::*;

use crate::tokenizer::{views, Token, TokenView};

verus! {

/// The character of the decimal digit `d`.
pub open spec fn digit_char(d: nat) -> char {
    (d + 48) as char
}

/// `n` written in decimal, without leading zeros.
pub open spec fn decimal(n: nat) -> Seq<char>
    decreases n,
{
    if n < 10 {
        seq![digit_char(n)]
    } else {
        decimal(n / 10).push(digit_char(n % 10))
    }
}

/// The report line of one occurrence: a tab, the line number and `. ` when
/// the token carries one, the token, a line break.
pub open spec fn occurrence_line(t: TokenView) -> Seq<char> {
    match t.line {
        Some(n) => seq!['\t'] + decimal(n) + seq!['.', ' '] + t.text + seq!['\n'],
        None => seq!['\t'] + t.text + seq!['\n'],
    }
}

pub open spec fn occurrence_lines(occurrences: Seq<TokenView>) -> Seq<char>
    decreases occurrences.len(),
{
    if occurrences.len() == 0 {
        Seq::empty()
    } else {
        occurrence_lines(occurrences.drop_last()) + occurrence_line(occurrences.last())
    }
}

/// The report of one file: nothing when it has no occurrence, else its path
/// on a line of its own followed by one line per occurrence.
pub open spec fn file_report(path: Seq<char>, occurrences: Seq<TokenView>) -> Seq<char> {
    if occurrences.len() == 0 {
        Seq::empty()
    } else {
        path + seq!['\n'] + occurrence_lines(occurrences)
    }
}

fn push_decimal(out: &mut String, n: usize)
    ensures
        final(out)@ == old(out)@ + decimal(n as nat),
    decreases n,
{
    if n >= 10 {
        push_decimal(out, n / 10);
    }
    let d = (n % 10) as u8;
    out.push((d + 48) as char);
    if n >= 10 {
        assert(final(out)@ =~= old(out)@ + decimal(n as nat));
    } else {
        assert(final(out)@ =~= old(out)@ + decimal(n as nat));
    }
}

/// Writes the report of the file at `file_path` whose occurrences are given.
pub fn render_occurrences(file_path: &String, occurrences: &Vec<Token>) -> (r: String)
    ensures
        r@ == file_report(file_path@, views(occurrences@)),
{
    let ghost occ = views(occurrences@);
    let mut out = String::new();
    if occurrences.len() == 0 {
        return out;
    }
    out.append(file_path.as_str());
    out.push('\n');
    let ghost head = file_path@ + seq!['\n'];
    assert(out@ =~= head + occurrence_lines(occ.take(0)));
    let mut i: usize = 0;
    while i < occurrences.len()
        invariant
            i <= occurrences@.len(),
            occ == views(occurrences@),
            out@ == head + occurrence_lines(occ.take(i as int)),
        decreases occurrences@.len() - i,
    {
        let ghost before = out@;
        out.push('\t');
        match &occurrences[i] {
            Token::TokenStr(text) => {
                out.append(text.as_str());
            },
            Token::TokenStrLine(t) => {
                push_decimal(&mut out, t.line_num);
                out.push('.');
                out.push(' ');
                out.append(t.contents.as_str());
            },
        }
        out.push('\n');
        assert(occ.take(i + 1).drop_last() =~= occ.take(i as int));
        assert(occ[i as int] == occurrences@[i as int]@);
        assert(out@ =~= before + occurrence_line(occ[i as int]));
        i += 1;
    }
    assert(occ.take(i as int) =~= occ);
    out
}

} // verus!
