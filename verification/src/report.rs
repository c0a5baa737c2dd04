//! What is shown of a crash position: the line of the source it names and
//! a caret under its column.
use vstd::prelude::*;

use crate::text::{chars_of, split_lines, lines_view, string_of, text_lines};

verus! {

/// The `line`-th line (counting from 1) of `contents`, if it has that many.
pub open spec fn source_line(contents: Seq<char>, line: int) -> Option<Seq<char>> {
    let lines = text_lines(contents);
    if 1 <= line <= lines.len() {
        Some(lines[line - 1])
    } else {
        None
    }
}

/// The `line`-th line (counting from 1) of `contents`, if it has that many.
pub fn source_line_at(contents: &str, line: usize) -> (r: Option<String>)
    requires
        line > 0,
    ensures
        r matches Some(s) ==> source_line(contents@, line as int) == Some(s@),
        r is None ==> source_line(contents@, line as int) is None,
{
    let chars = chars_of(contents);
    let lines = split_lines(&chars);
    if line - 1 < lines.len() {
        let text = string_of(&lines[line - 1]);
        assert(lines_view(lines@)[line - 1] == lines@[line - 1]@);
        Some(text)
    } else {
        None
    }
}

/// What goes under the first `count` characters of `line` so that a caret
/// after it stands under the next one: a tab for a tab, a space for
/// anything else, and no more than the line holds (none for a count
/// below one).
pub open spec fn caret_padding_of(line: Seq<char>, count: int) -> Seq<char> {
    let n = if count <= 0 {
        0
    } else if count < line.len() {
        count
    } else {
        line.len() as int
    };
    Seq::new(
        n as nat,
        |i: int|
            if line[i] == '\t' {
                '\t'
            } else {
                ' '
            },
    )
}

/// The padding that puts a caret under column `column` (counting from 1)
/// of `source_line`.
pub fn caret_padding(source_line: &str, column: usize) -> (r: String)
    ensures
        r@ == caret_padding_of(source_line@, column - 1),
{
    let chars = chars_of(source_line);
    let count = if column == 0 {
        0
    } else {
        column - 1
    };
    let n = if count < chars.len() {
        count
    } else {
        chars.len()
    };
    let mut out: Vec<char> = Vec::new();
    for i in 0..n
        invariant
            n <= chars.len(),
            chars@ == source_line@,
            out@ == caret_padding_of(source_line@, column - 1).take(i as int),
            caret_padding_of(source_line@, column - 1).len() == n,
    {
        if chars[i] == '\t' {
            out.push('\t');
        } else {
            out.push(' ');
        }
        assert(out@ =~= caret_padding_of(source_line@, column - 1).take(i + 1));
    }
    assert(caret_padding_of(source_line@, column - 1).take(n as int) == caret_padding_of(
        source_line@,
        column - 1,
    ));
    string_of(&out)
}

/// How many decimal digits `n` is written with.
pub open spec fn decimal_width_of(n: nat) -> nat
    decreases n,
{
    if n < 10 {
        1
    } else {
        1 + decimal_width_of(n / 10)
    }
}

proof fn lemma_decimal_width_bounds(n: nat)
    ensures
        decimal_width_of(n) >= 1,
        n >= 1 ==> decimal_width_of(n) <= n,
    decreases n,
{
    if n >= 10 {
        lemma_decimal_width_bounds(n / 10);
    }
}

/// How many decimal digits `n` is written with, which is how wide the
/// line-number column is.
pub fn decimal_width(n: usize) -> (w: usize)
    ensures
        w == decimal_width_of(n as nat),
{
    let mut rest = n;
    let mut w: usize = 1;
    proof {
        lemma_decimal_width_bounds(n as nat);
    }
    while rest >= 10
        invariant
            1 <= w,
            w + decimal_width_of(rest as nat) - 1 == decimal_width_of(n as nat),
            rest >= 1 ==> decimal_width_of(n as nat) <= n,
            rest <= n,
        decreases rest,
    {
        proof {
            lemma_decimal_width_bounds((rest / 10) as nat);
        }
        rest = rest / 10;
        w += 1;
    }
    w
}

} // verus!
