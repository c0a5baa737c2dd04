//! Reading a crash position out of what a program, a sanitizer or a debugger
//! printed.
use vstd::prelude::*;
use std::path::Path;

use crate::paths::{file_name_of, path_file_name, path_text, path_text_of};
use crate::text::{
    chars_of, first_colon, first_colon_exec, is_white_space, is_whitespace_char, line_split,
    lines_view, parse_usize, parse_usize_chars, split_lines, string_of, strip_cr, sub_chars,
    text_lines,
};

verus! {

/// A position inside the solution's source file.
#[derive(Clone, Copy, Debug, PartialEq, Eq, Structural)]
pub struct SourceLocation {
    pub line: usize,
    pub column: Option<usize>,
}

/// How hard to work at pinning a crash to a line of the solution.
#[derive(Clone, Copy, Debug, PartialEq, Eq, Structural)]
pub enum Diagnostics {
    /// Do not look for a source location.
    Off,
    /// Only read what the program itself wrote, such as a sanitizer report.
    Output,
    /// Also re-run a silent crash under a debugger.
    Debugger,
}

impl Default for Diagnostics {
    fn default() -> (d: Self)
        ensures
            d == Diagnostics::Output,
    {
        Diagnostics::Output
    }
}

/// `marker` appears in `line` starting at index `p`.
pub open spec fn occurs_at(line: Seq<char>, marker: Seq<char>, p: int) -> bool {
    0 <= p && p + marker.len() <= line.len() && line.subrange(p, p + marker.len()) == marker
}

/// A character that can continue a file name: an ASCII letter or digit,
/// `_`, `-`, `.`, or any character beyond ASCII (which may be a letter of
/// another script).
pub open spec fn is_name_char(c: char) -> bool {
    let u = c as u32;
    ||| 0x30 <= u <= 0x39
    ||| 0x41 <= u <= 0x5A
    ||| 0x61 <= u <= 0x7A
    ||| c == '_'
    ||| c == '-'
    ||| c == '.'
    ||| u >= 0x80
}

/// A character that cannot be part of a file name and so may stand just
/// before one, such as a path separator, whitespace, a bracket or a quote.
pub open spec fn is_name_boundary(c: char) -> bool {
    !is_name_char(c)
}

/// `marker` appears in `line` at index `p` as the start of a file name: at
/// the start of the line or just after a name boundary, so that `main.cpp:`
/// is not found inside `helper_main.cpp:`.
pub open spec fn names_at(line: Seq<char>, marker: Seq<char>, p: int) -> bool {
    &&& occurs_at(line, marker, p)
    &&& (p == 0 || is_name_boundary(line[p - 1]))
}

/// `p` is where the last mention of `marker` as a file name in `line`
/// starts.
pub open spec fn is_last_occurrence(line: Seq<char>, marker: Seq<char>, p: int) -> bool {
    &&& names_at(line, marker, p)
    &&& forall|q: int| #[trigger] names_at(line, marker, q) ==> q <= p
}

/// Where the last mention of `marker` as a file name in `line` starts.
pub open spec fn last_occurrence(line: Seq<char>, marker: Seq<char>) -> Option<int> {
    if exists|p: int| is_last_occurrence(line, marker, p) {
        Some(choose|p: int| is_last_occurrence(line, marker, p))
    } else {
        None
    }
}

/// The first field of `s.split(':')`.
pub open spec fn leading_field(s: Seq<char>) -> Seq<char> {
    match first_colon(s) {
        Some(i) => s.take(i),
        None => s,
    }
}

/// What follows the first `':'` of `s`, if there is one.
pub open spec fn after_first_colon(s: Seq<char>) -> Option<Seq<char>> {
    match first_colon(s) {
        Some(i) => Some(s.skip(i + 1)),
        None => None,
    }
}

/// `s[a..b]` is the first run of non-whitespace characters in `s`.
pub open spec fn is_first_token(s: Seq<char>, a: int, b: int) -> bool {
    &&& 0 <= a < b <= s.len()
    &&& forall|j: int| 0 <= j < a ==> is_white_space(#[trigger] s[j])
    &&& forall|j: int| a <= j < b ==> !is_white_space(#[trigger] s[j])
    &&& (b == s.len() || is_white_space(s[b]))
}

/// The first item of `str::split_whitespace`, if there is one.
pub open spec fn first_token(s: Seq<char>) -> Option<Seq<char>> {
    if exists|a: int, b: int| is_first_token(s, a, b) {
        let (a, b) = choose|a: int, b: int| is_first_token(s, a, b);
        Some(s.subrange(a, b))
    } else {
        None
    }
}

/// The column that the second `':'`-separated field names, if it names a
/// positive number in its first whitespace-separated token.
pub open spec fn column_in(rest: Option<Seq<char>>) -> Option<usize> {
    match rest {
        None => None,
        Some(r) => match first_token(leading_field(r)) {
            None => None,
            Some(t) => match parse_usize(t) {
                Some(c) => if c > 0 {
                    Some(c)
                } else {
                    None
                },
                None => None,
            },
        },
    }
}

/// The position that `line` names after its last mention of `marker` as a
/// file name, read as
/// `<line>[:<column>]`; a line number must be positive.
pub open spec fn line_location(line: Seq<char>, marker: Seq<char>) -> Option<SourceLocation> {
    match last_occurrence(line, marker) {
        None => None,
        Some(p) => {
            let suffix = line.skip(p + marker.len());
            match parse_usize(leading_field(suffix)) {
                None => None,
                Some(n) => if n > 0 {
                    Some(SourceLocation { line: n, column: column_in(after_first_colon(suffix)) })
                } else {
                    None
                },
            }
        },
    }
}

/// The position named by the first of `lines` that names one.
pub open spec fn first_location(lines: Seq<Seq<char>>, marker: Seq<char>) -> Option<
    SourceLocation,
>
    decreases lines.len(),
{
    if lines.len() == 0 {
        None
    } else {
        match first_location(lines.drop_last(), marker) {
            Some(found) => Some(found),
            None => line_location(lines.last(), marker),
        }
    }
}

/// The text `"<file_name>:"` that introduces a position in `file_name`.
pub open spec fn location_marker(file_name: Seq<char>) -> Seq<char> {
    file_name.push(':')
}

/// The position in `file_name` that `output` names first.
pub open spec fn output_location(output: Seq<char>, file_name: Seq<char>) -> Option<
    SourceLocation,
> {
    first_location(text_lines(output), location_marker(file_name))
}

/// A position that the library reports has a positive line and, if it has
/// one, a positive column.
pub open spec fn is_valid_location(location: SourceLocation) -> bool {
    location.line > 0 && (location.column matches Some(c) ==> c > 0)
}

/// Every position read off a line is a valid one.
pub proof fn lemma_line_location_valid(line: Seq<char>, marker: Seq<char>)
    ensures
        line_location(line, marker) matches Some(loc) ==> is_valid_location(loc),
{
}

/// Every position read off an output is a valid one.
pub proof fn lemma_first_location_valid(lines: Seq<Seq<char>>, marker: Seq<char>)
    ensures
        first_location(lines, marker) matches Some(loc) ==> is_valid_location(loc),
    decreases lines.len(),
{
    if lines.len() > 0 {
        lemma_first_location_valid(lines.drop_last(), marker);
        lemma_line_location_valid(lines.last(), marker);
    }
}

/// Splitting after a complete line continues from a fresh line.
proof fn lemma_line_split_concat(before: Seq<char>, after: Seq<char>)
    requires
        line_split(before).1.len() == 0,
    ensures
        line_split(before + after) == (line_split(before).0 + line_split(after).0, line_split(after).1),
    decreases after.len(),
{
    if after.len() == 0 {
        assert(before + after == before);
        assert(line_split(before).0 + Seq::<Seq<char>>::empty() == line_split(before).0);
    } else {
        assert((before + after).drop_last() == before + after.drop_last());
        lemma_line_split_concat(before, after.drop_last());
        let (d, _) = line_split(after.drop_last());
        assert((line_split(before).0 + d).push(line_split(after.drop_last()).1) == line_split(
            before,
        ).0 + d.push(line_split(after.drop_last()).1));
    }
}

/// The lines of text that ends in a line ending, followed by more text, are
/// the lines of each.
proof fn lemma_text_lines_concat(before: Seq<char>, after: Seq<char>)
    requires
        before.len() == 0 || before.last() == '\n',
    ensures
        text_lines(before + after) == text_lines(before) + text_lines(after),
{
    assert(line_split(before).1.len() == 0);
    lemma_line_split_concat(before, after);
    let (d1, _) = line_split(before);
    let (d2, open) = line_split(after);
    assert((d1 + d2).map_values(|l: Seq<char>| strip_cr(l)) =~= d1.map_values(
        |l: Seq<char>| strip_cr(l),
    ) + d2.map_values(|l: Seq<char>| strip_cr(l)));
    if open.len() > 0 {
        assert((d1.map_values(|l: Seq<char>| strip_cr(l)) + d2.map_values(
            |l: Seq<char>| strip_cr(l),
        )).push(open) =~= d1.map_values(|l: Seq<char>| strip_cr(l)) + d2.map_values(
            |l: Seq<char>| strip_cr(l),
        ).push(open));
    }
}

/// Lines that name no position do not change which position comes first.
proof fn lemma_first_location_skips(skipped: Seq<Seq<char>>, rest: Seq<Seq<char>>, marker: Seq<char>)
    requires
        forall|i: int| 0 <= i < skipped.len() ==> line_location(#[trigger] skipped[i], marker) is None,
    ensures
        first_location(skipped + rest, marker) == first_location(rest, marker),
    decreases skipped.len() + rest.len(),
{
    if rest.len() == 0 {
        assert(skipped + rest == skipped);
        if skipped.len() > 0 {
            lemma_first_location_skips(skipped.drop_last(), rest, marker);
            assert(skipped.drop_last() + rest == skipped.drop_last());
        }
    } else {
        assert((skipped + rest).drop_last() == skipped + rest.drop_last());
        lemma_first_location_skips(skipped, rest.drop_last(), marker);
    }
}

/// Frames from other files are skipped: when no line of `before` (complete
/// lines only) mentions `<file_name>:` as a whole file name (a mention inside
/// a longer name such as `helper_<file_name>:` does not count), a report that starts with `before`
/// locates the same position as the rest of it.
pub proof fn lemma_other_files_skipped(before: Seq<char>, after: Seq<char>, file_name: Seq<char>)
    requires
        before.len() == 0 || before.last() == '\n',
        forall|i: int, p: int|
            0 <= i < text_lines(before).len() ==> !#[trigger] names_at(
                text_lines(before)[i],
                location_marker(file_name),
                p,
            ),
    ensures
        output_location(before + after, file_name) == output_location(after, file_name),
{
    lemma_text_lines_concat(before, after);
    let marker = location_marker(file_name);
    let skipped = text_lines(before);
    assert forall|i: int| 0 <= i < skipped.len() implies line_location(#[trigger] skipped[i], marker)
        is None by {
        assert forall|p: int| !is_last_occurrence(skipped[i], marker, p) by {
            assert(!names_at(skipped[i], marker, p));
        }
    }
    lemma_first_location_skips(skipped, text_lines(after), marker);
}

/// The first position among two runs of lines is the first run's, if it
/// names one, else the second's.
proof fn lemma_first_location_concat(first: Seq<Seq<char>>, second: Seq<Seq<char>>, marker: Seq<char>)
    ensures
        first_location(first + second, marker) == match first_location(first, marker) {
            Some(found) => Some(found),
            None => first_location(second, marker),
        },
    decreases second.len(),
{
    if second.len() == 0 {
        assert(first + second == first);
    } else {
        assert((first + second).drop_last() == first + second.drop_last());
        lemma_first_location_concat(first, second.drop_last(), marker);
    }
}

/// Ending text with one more line ending adds at most an empty line.
proof fn lemma_text_lines_push_newline(a: Seq<char>)
    requires
        a.len() == 0 || a.last() != '\r',
    ensures
        ({
            let lines = text_lines(a.push('\n'));
            lines == text_lines(a) || lines == text_lines(a).push(Seq::<char>::empty())
        }),
{
    assert(a.push('\n').drop_last() == a);
    let (done, open) = line_split(a);
    if open.len() > 0 {
        assert(a.len() > 0 && a.last() != '\n');
        assert(open == line_split(a.drop_last()).1.push(a.last()));
        assert(strip_cr(open) == open);
    }
    assert(done.push(open).map_values(|l: Seq<char>| strip_cr(l)) =~= done.map_values(
        |l: Seq<char>| strip_cr(l),
    ).push(strip_cr(open)));
}

/// The first line that names a position wins: in `a`, a line ending and
/// then `b`, the position found is the one `a` names, or else the one `b`
/// names (unless `a` ends in a `'\r'`, which the line ending would take
/// away from its last line).
pub proof fn lemma_first_line_wins(a: Seq<char>, b: Seq<char>, file_name: Seq<char>)
    requires
        a.len() == 0 || a.last() != '\r',
    ensures
        output_location(a + seq!['\n'] + b, file_name) == match output_location(a, file_name) {
            Some(found) => Some(found),
            None => output_location(b, file_name),
        },
{
    let marker = location_marker(file_name);
    let head = a.push('\n');
    assert(a + seq!['\n'] + b == head + b);
    lemma_text_lines_concat(head, b);
    lemma_first_location_concat(text_lines(head), text_lines(b), marker);
    lemma_text_lines_push_newline(a);
    if text_lines(head) != text_lines(a) {
        let empty = Seq::<char>::empty();
        assert forall|p: int| !is_last_occurrence(empty, marker, p) by {}
        assert(line_location(empty, marker) is None);
        assert(text_lines(head).drop_last() == text_lines(a));
    }
}

/// Whether `marker` appears in `line` at index `p`.
fn occurs_at_exec(line: &Vec<char>, marker: &Vec<char>, p: usize) -> (r: bool)
    requires
        p + marker.len() <= line.len(),
    ensures
        r == occurs_at(line@, marker@, p as int),
{
    let mut j: usize = 0;
    while j < marker.len()
        invariant
            p + marker.len() <= line.len(),
            j <= marker.len(),
            forall|k: int| 0 <= k < j ==> line@[p + k] == marker@[k],
        decreases marker.len() - j,
    {
        if line[p + j] != marker[j] {
            assert(line@.subrange(p as int, p + marker.len())[j as int] != marker@[j as int]);
            return false;
        }
        j += 1;
    }
    assert(line@.subrange(p as int, p + marker.len()) =~= marker@);
    true
}

/// Whether `c` may stand just before a file name.
fn is_name_boundary_char(c: char) -> (b: bool)
    ensures
        b == is_name_boundary(c),
{
    let u = c as u32;
    !((0x30 <= u && u <= 0x39) || (0x41 <= u && u <= 0x5A) || (0x61 <= u && u <= 0x7A) || c
        == '_' || c == '-' || c == '.' || u >= 0x80)
}

/// Where the last mention of `marker` as a file name in `line` starts.
fn last_occurrence_exec(line: &Vec<char>, marker: &Vec<char>) -> (r: Option<usize>)
    ensures
        r matches Some(p) ==> last_occurrence(line@, marker@) == Some(p as int) && p
            + marker.len() <= line.len(),
        r is None ==> last_occurrence(line@, marker@) is None,
{
    if marker.len() > line.len() {
        assert forall|p: int| !is_last_occurrence(line@, marker@, p) by {}
        return None;
    }
    let mut p = line.len() - marker.len();
    loop
        invariant
            p + marker.len() <= line.len(),
            forall|q: int| p < q ==> !#[trigger] names_at(line@, marker@, q),
        decreases p,
    {
        if occurs_at_exec(line, marker, p) && (p == 0 || is_name_boundary_char(line[p - 1])) {
            assert(is_last_occurrence(line@, marker@, p as int));
            assert forall|q: int| #[trigger]
                is_last_occurrence(line@, marker@, q) implies q == p by {}
            return Some(p);
        }
        if p == 0 {
            assert forall|q: int| !is_last_occurrence(line@, marker@, q) by {}
            return None;
        }
        p -= 1;
    }
}

/// The first `':'`-separated field of `s`, and what follows its `':'`.
fn split_first_colon(s: &Vec<char>) -> (r: (Vec<char>, Option<Vec<char>>))
    ensures
        r.0@ == leading_field(s@),
        r.1 matches Some(rest) ==> after_first_colon(s@) == Some(rest@),
        r.1 is None ==> after_first_colon(s@) is None,
{
    match first_colon_exec(s) {
        Some(i) => (sub_chars(s, 0, i), Some(sub_chars(s, i + 1, s.len()))),
        None => (sub_chars(s, 0, s.len()), None),
    }
}

/// There is at most one first token.
proof fn lemma_first_token_unique(s: Seq<char>, a: int, b: int, c: int, d: int)
    requires
        is_first_token(s, a, b),
        is_first_token(s, c, d),
    ensures
        a == c && b == d,
{
    if a < c {
        assert(is_white_space(s[a]));
    } else if c < a {
        assert(is_white_space(s[c]));
    }
    if b < d {
        assert(!is_white_space(s[b]));
    } else if d < b {
        assert(!is_white_space(s[d]));
    }
}

/// The first whitespace-separated token of `s`.
fn first_token_exec(s: &Vec<char>) -> (r: Option<Vec<char>>)
    ensures
        r matches Some(t) ==> first_token(s@) == Some(t@),
        r is None ==> first_token(s@) is None,
{
    let mut a: usize = 0;
    while a < s.len() && is_whitespace_char(s[a])
        invariant
            a <= s.len(),
            forall|j: int| 0 <= j < a ==> is_white_space(#[trigger] s@[j]),
        decreases s.len() - a,
    {
        a += 1;
    }
    if a == s.len() {
        assert forall|x: int, y: int| !is_first_token(s@, x, y) by {
            if is_first_token(s@, x, y) {
                assert(is_white_space(s@[x]));
            }
        }
        return None;
    }
    let mut b: usize = a + 1;
    while b < s.len() && !is_whitespace_char(s[b])
        invariant
            a < b <= s.len(),
            forall|j: int| a <= j < b ==> !is_white_space(#[trigger] s@[j]),
        decreases s.len() - b,
    {
        b += 1;
    }
    assert(is_first_token(s@, a as int, b as int));
    proof {
        let (x, y) = choose|x: int, y: int| is_first_token(s@, x, y);
        lemma_first_token_unique(s@, a as int, b as int, x, y);
    }
    Some(sub_chars(s, a, b))
}

/// The column named in what follows the first `':'` of a position.
fn column_exec(rest: Option<Vec<char>>) -> (r: Option<usize>)
    ensures
        r == column_in(match rest {
            Some(v) => Some(v@),
            None => None,
        }),
{
    match rest {
        None => None,
        Some(r) => {
            let (field, _) = split_first_colon(&r);
            match first_token_exec(&field) {
                None => None,
                Some(t) => match parse_usize_chars(&t) {
                    Some(c) => if c > 0 {
                        Some(c)
                    } else {
                        None
                    },
                    None => None,
                },
            }
        },
    }
}

/// The position that one line names after its last `marker`.
pub fn location_in_line(line: &Vec<char>, marker: &Vec<char>) -> (r: Option<SourceLocation>)
    ensures
        r == line_location(line@, marker@),
{
    match last_occurrence_exec(line, marker) {
        None => None,
        Some(p) => {
            let suffix = sub_chars(line, p + marker.len(), line.len());
            assert(suffix@ == line@.skip(p + marker.len()));
            let (field, rest) = split_first_colon(&suffix);
            match parse_usize_chars(&field) {
                None => None,
                Some(n) => if n > 0 {
                    let column = column_exec(rest);
                    Some(SourceLocation { line: n, column })
                } else {
                    None
                },
            }
        },
    }
}

/// Find the first line of `output` that names a position in the file called
/// `file_name`, written `<file_name>:<line>[:<column>]`.
pub fn find_location_for_file(output: &str, file_name: &str) -> (r: Option<SourceLocation>)
    ensures
        r == output_location(output@, file_name@),
        r matches Some(loc) ==> is_valid_location(loc),
{
    let text = chars_of(output);
    let mut marker = chars_of(file_name);
    marker.push(':');
    let lines = split_lines(&text);
    let ghost all = lines_view(lines@);
    let mut i: usize = 0;
    while i < lines.len()
        invariant
            i <= lines.len(),
            all == lines_view(lines@),
            all == text_lines(output@),
            marker@ == location_marker(file_name@),
            first_location(all.take(i as int), marker@) is None,
        decreases lines.len() - i,
    {
        assert(all.take(i + 1).drop_last() == all.take(i as int));
        assert(all.take(i + 1).last() == lines@[i as int]@);
        let found = location_in_line(&lines[i], &marker);
        if found.is_some() {
            proof {
                lemma_first_location_suffix(all, marker@, i as int);
                lemma_first_location_valid(all, marker@);
            }
            return found;
        }
        i += 1;
    }
    assert(all.take(lines.len() as int) == all);
    None
}

/// Once some line names a position, later lines do not change the answer.
proof fn lemma_first_location_suffix(lines: Seq<Seq<char>>, marker: Seq<char>, i: int)
    requires
        0 <= i < lines.len(),
        first_location(lines.take(i), marker) is None,
        line_location(lines[i], marker) is Some,
    ensures
        first_location(lines, marker) == line_location(lines[i], marker),
    decreases lines.len(),
{
    if i == lines.len() - 1 {
        assert(lines.drop_last() == lines.take(i));
    } else {
        assert(lines.drop_last().take(i) == lines.take(i));
        lemma_first_location_suffix(lines.drop_last(), marker, i);
    }
}

/// Find the first line of `output` that names a position in `source`.
///
/// Anything that spells out `<file>:<line>[:<column>]` counts, which covers
/// sanitizer reports as well as LLDB and GDB backtraces, when the file name
/// starts the line or follows a character that cannot be part of a file
/// name (anything but an ASCII letter or digit, `_`, `-`, `.` or a character
/// beyond ASCII). Lines that name other files are skipped, including
/// files whose names end in the solution's own. The file name of `source` is what the standard
/// library's `Path::file_name` gives; when it has none, or it is not valid
/// Unicode, there is no position to find.
pub fn find_source_location(output: &str, source: &Path) -> (r: Option<SourceLocation>)
    ensures
        r == match file_name_of(source) {
            Some(name) => output_location(output@, name),
            None => None,
        },
        r matches Some(loc) ==> is_valid_location(loc),
{
    match path_file_name(source) {
        None => None,
        Some(name) => find_location_for_file(output, name),
    }
}

/// How one character is written inside a single-quoted shell word: a
/// `'` closes the quotes, is escaped, and opens them again.
pub open spec fn shell_escaped_char(c: char) -> Seq<char> {
    if c == '\'' {
        seq!['\'', '\\', '\'', '\'']
    } else {
        seq![c]
    }
}

/// `text` with each character written as inside single quotes.
pub open spec fn shell_escaped(text: Seq<char>) -> Seq<char>
    decreases text.len(),
{
    if text.len() == 0 {
        Seq::empty()
    } else {
        shell_escaped(text.drop_last()) + shell_escaped_char(text.last())
    }
}

/// `text` as one single-quoted shell word.
pub open spec fn shell_quoted(text: Seq<char>) -> Seq<char> {
    seq!['\''] + shell_escaped(text) + seq!['\'']
}

/// How one character is written inside a double-quoted LLDB argument: a
/// `\\` or a `"` gets a `\\` before it.
pub open spec fn lldb_escaped_char(c: char) -> Seq<char> {
    if c == '\\' {
        seq!['\\', '\\']
    } else if c == '"' {
        seq!['\\', '"']
    } else {
        seq![c]
    }
}

/// `text` with each character written as inside double quotes.
pub open spec fn lldb_escaped(text: Seq<char>) -> Seq<char>
    decreases text.len(),
{
    if text.len() == 0 {
        Seq::empty()
    } else {
        lldb_escaped(text.drop_last()) + lldb_escaped_char(text.last())
    }
}

/// `text` as one double-quoted LLDB argument.
pub open spec fn lldb_quoted(text: Seq<char>) -> Seq<char> {
    seq!['"'] + lldb_escaped(text) + seq!['"']
}

/// Append `chars` to `out`.
fn push_all(out: &mut Vec<char>, chars: &Vec<char>)
    ensures
        final(out)@ == old(out)@ + chars@,
{
    let ghost start = out@;
    for i in 0..chars.len()
        invariant
            out@ == start + chars@.take(i as int),
    {
        out.push(chars[i]);
        assert(chars@.take(i + 1) == chars@.take(i as int).push(chars@[i as int]));
    }
    assert(chars@.take(chars.len() as int) == chars@);
}

/// `text` as one single-quoted shell word, in which every `'` is written
/// `'\\''`.
pub fn quote_shell(text: &str) -> (r: String)
    ensures
        r@ == shell_quoted(text@),
{
    let chars = chars_of(text);
    let mut out: Vec<char> = Vec::new();
    out.push('\'');
    for i in 0..chars.len()
        invariant
            chars@ == text@,
            out@ == seq!['\''] + shell_escaped(text@.take(i as int)),
    {
        let c = chars[i];
        assert(text@.take(i + 1).drop_last() == text@.take(i as int));
        assert(text@.take(i + 1).last() == c);
        if c == '\'' {
            let piece: Vec<char> = vec!['\'', '\\', '\'', '\''];
            assert(piece@ == shell_escaped_char(c));
            push_all(&mut out, &piece);
        } else {
            out.push(c);
            assert(seq![c] == shell_escaped_char(c));
        }
        assert(out@ =~= seq!['\''] + shell_escaped(text@.take(i + 1)));
    }
    assert(text@.take(chars.len() as int) == text@);
    out.push('\'');
    string_of(&out)
}

/// `text` as one double-quoted LLDB argument, in which every `\\` and `"`
/// is escaped with a `\\`.
pub fn quote_lldb(text: &str) -> (r: String)
    ensures
        r@ == lldb_quoted(text@),
{
    let chars = chars_of(text);
    let mut out: Vec<char> = Vec::new();
    out.push('"');
    for i in 0..chars.len()
        invariant
            chars@ == text@,
            out@ == seq!['"'] + lldb_escaped(text@.take(i as int)),
    {
        let c = chars[i];
        assert(text@.take(i + 1).drop_last() == text@.take(i as int));
        assert(text@.take(i + 1).last() == c);
        if c == '\\' || c == '"' {
            out.push('\\');
            out.push(c);
        } else {
            out.push(c);
        }
        assert(out@ =~= seq!['"'] + lldb_escaped(text@.take(i + 1)));
    }
    assert(text@.take(chars.len() as int) == text@);
    out.push('"');
    string_of(&out)
}

/// The path `path` as one single-quoted shell word, its text read as
/// `Path::to_string_lossy` gives it ([`path_text_of`]).
pub fn quote_shell_argument(path: &Path) -> (r: String)
    ensures
        r@ == shell_quoted(path_text_of(path)),
{
    let text = path_text(path);
    quote_shell(text.as_str())
}

/// The path `path` as one double-quoted LLDB argument, its text read as
/// `Path::to_string_lossy` gives it.
pub fn quote_lldb_argument(path: &Path) -> (r: String)
    ensures
        r@ == lldb_quoted(path_text_of(path)),
{
    let text = path_text(path);
    quote_lldb(text.as_str())
}

/// The texts held by a vector of strings.
pub open spec fn strings_view(v: Seq<String>) -> Seq<Seq<char>> {
    v.map_values(|s: String| s@)
}

/// The arguments that make GDB run the program (named after them) with
/// its standard input read from the shell word `quoted_input`, and print
/// the backtrace where it stops.
pub open spec fn gdb_argument_list(quoted_input: Seq<char>) -> Seq<Seq<char>> {
    seq![
        "--batch"@,
        "--quiet"@,
        "-ex"@,
        "set pagination off"@,
        "-ex"@,
        "run < "@ + quoted_input,
        "-ex"@,
        "bt 16"@,
        "--args"@,
    ]
}

/// The arguments that make LLDB run the program (named after them) with its
/// standard input read from the file named by the LLDB argument
/// `quoted_input`, and print the backtrace where it stops.
pub open spec fn lldb_argument_list(quoted_input: Seq<char>) -> Seq<Seq<char>> {
    seq![
        "--batch"@,
        "--no-lldbinit"@,
        "--source-quietly"@,
        "--no-use-colors"@,
        "-o"@,
        "settings set target.input-path "@ + quoted_input,
        "-o"@,
        "run"@,
        "-k"@,
        "bt 16"@,
        "-k"@,
        "process kill"@,
        "-k"@,
        "quit"@,
    ]
}

/// `prefix` followed by `rest`.
fn joined(prefix: &str, rest: &str) -> (r: String)
    ensures
        r@ == prefix@ + rest@,
{
    let mut s = prefix.to_owned();
    s.append(rest);
    s
}

/// The GDB arguments, before the binary, that re-run a program on the
/// input file whose text is `input`.
pub fn gdb_arguments_for(input: &str) -> (r: Vec<String>)
    ensures
        strings_view(r@) == gdb_argument_list(shell_quoted(input@)),
{
    let quoted = quote_shell(input);
    let run = joined("run < ", quoted.as_str());
    let r = vec![
        "--batch".to_owned(),
        "--quiet".to_owned(),
        "-ex".to_owned(),
        "set pagination off".to_owned(),
        "-ex".to_owned(),
        run,
        "-ex".to_owned(),
        "bt 16".to_owned(),
        "--args".to_owned(),
    ];
    assert(strings_view(r@) =~= gdb_argument_list(shell_quoted(input@)));
    r
}

/// The LLDB arguments, before the binary, that re-run a program on the
/// input file whose text is `input`.
pub fn lldb_arguments_for(input: &str) -> (r: Vec<String>)
    ensures
        strings_view(r@) == lldb_argument_list(lldb_quoted(input@)),
{
    let quoted = quote_lldb(input);
    let settings = joined("settings set target.input-path ", quoted.as_str());
    let r = vec![
        "--batch".to_owned(),
        "--no-lldbinit".to_owned(),
        "--source-quietly".to_owned(),
        "--no-use-colors".to_owned(),
        "-o".to_owned(),
        settings,
        "-o".to_owned(),
        "run".to_owned(),
        "-k".to_owned(),
        "bt 16".to_owned(),
        "-k".to_owned(),
        "process kill".to_owned(),
        "-k".to_owned(),
        "quit".to_owned(),
    ];
    assert(strings_view(r@) =~= lldb_argument_list(lldb_quoted(input@)));
    r
}

/// The GDB arguments, before the binary, that re-run a program on the file
/// at `input`.
pub fn gdb_arguments(input: &Path) -> (r: Vec<String>)
    ensures
        strings_view(r@) == gdb_argument_list(shell_quoted(path_text_of(input))),
{
    let text = path_text(input);
    gdb_arguments_for(text.as_str())
}

/// The LLDB arguments, before the binary, that re-run a program on the file
/// at `input`.
pub fn lldb_arguments(input: &Path) -> (r: Vec<String>)
    ensures
        strings_view(r@) == lldb_argument_list(lldb_quoted(path_text_of(input))),
{
    let text = path_text(input);
    lldb_arguments_for(text.as_str())
}

/// How long a debugger re-run may take, for a test whose time limit is
/// `secs` seconds and `nanos` nanoseconds: the limit up to two seconds, plus
/// three seconds.
pub open spec fn debugger_budget(secs: u64, nanos: u32) -> (u64, u32) {
    if secs < 2 {
        ((secs + 3) as u64, nanos)
    } else {
        (5, 0)
    }
}

/// How long a debugger re-run may take, as seconds and nanoseconds, for a
/// test time limit given the same way (`nanos` below one second).
pub fn debugger_time_budget(secs: u64, nanos: u32) -> (r: (u64, u32))
    requires
        nanos < 1_000_000_000,
    ensures
        r == debugger_budget(secs, nanos),
{
    if secs < 2 {
        (secs + 3, nanos)
    } else {
        (5, 0)
    }
}

} // verus!
