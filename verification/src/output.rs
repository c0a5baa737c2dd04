//! Comparing what a solution printed with what was expected, without caring
//! about cosmetic differences.
use vstd::prelude::*;

use crate::text::{
    chars_of, is_white_space, is_whitespace_char, line_split, lines_view, same_chars, split_lines,
    string_of, strip_cr, text_lines, trim_end, trim_end_chars, lemma_trim_end_shape,
};

verus! {

/// `s` with every `"\r\n"` turned into `"\n"` and every other `'\r'` into
/// `'\n'`.
pub open spec fn unify_line_endings(s: Seq<char>) -> Seq<char>
    decreases s.len(),
{
    if s.len() == 0 {
        s
    } else if s[0] == '\r' && s.len() > 1 && s[1] == '\n' {
        seq!['\n'] + unify_line_endings(s.skip(2))
    } else if s[0] == '\r' {
        seq!['\n'] + unify_line_endings(s.drop_first())
    } else {
        seq![s[0]] + unify_line_endings(s.drop_first())
    }
}

/// `lines` without the empty lines at its end.
pub open spec fn drop_trailing_blank_lines(lines: Seq<Seq<char>>) -> Seq<Seq<char>>
    decreases lines.len(),
{
    if lines.len() > 0 && lines.last().len() == 0 {
        drop_trailing_blank_lines(lines.drop_last())
    } else {
        lines
    }
}

/// `lines` joined with `'\n'` between them.
pub open spec fn join_lines(lines: Seq<Seq<char>>) -> Seq<char>
    decreases lines.len(),
{
    if lines.len() == 0 {
        Seq::empty()
    } else if lines.len() == 1 {
        lines[0]
    } else {
        join_lines(lines.drop_last()).push('\n') + lines.last()
    }
}

/// Each line with its trailing whitespace removed.
pub open spec fn trim_line_ends(lines: Seq<Seq<char>>) -> Seq<Seq<char>> {
    lines.map_values(|l: Seq<char>| trim_end(l))
}

/// `value` with unified line endings, no trailing whitespace on any line
/// and no blank lines at the end.
pub open spec fn normalized(value: Seq<char>) -> Seq<char> {
    join_lines(drop_trailing_blank_lines(trim_line_ends(text_lines(unify_line_endings(value)))))
}

/// The whitespace-separated tokens found so far in `s`, and the one still
/// open.
pub open spec fn token_split(s: Seq<char>) -> (Seq<Seq<char>>, Seq<char>)
    decreases s.len(),
{
    if s.len() == 0 {
        (Seq::empty(), Seq::empty())
    } else {
        let (done, open) = token_split(s.drop_last());
        if is_white_space(s.last()) {
            if open.len() > 0 {
                (done.push(open), Seq::empty())
            } else {
                (done, open)
            }
        } else {
            (done, open.push(s.last()))
        }
    }
}

/// What `str::split_whitespace` yields for `s`.
pub open spec fn whitespace_tokens(s: Seq<char>) -> Seq<Seq<char>> {
    let (done, open) = token_split(s);
    if open.len() > 0 {
        done.push(open)
    } else {
        done
    }
}

fn unify_line_endings_exec(s: &Vec<char>) -> (r: Vec<char>)
    ensures
        r@ == unify_line_endings(s@),
{
    let mut r: Vec<char> = Vec::new();
    let mut i: usize = 0;
    assert(s@.skip(0) == s@);
    while i < s.len()
        invariant
            i <= s.len(),
            unify_line_endings(s@) == r@ + unify_line_endings(s@.skip(i as int)),
        decreases s.len() - i,
    {
        let ghost rest = s@.skip(i as int);
        if s[i] == '\r' && i + 1 < s.len() && s[i + 1] == '\n' {
            assert(rest.skip(2) == s@.skip(i + 2));
            r.push('\n');
            i += 2;
        } else {
            assert(rest.drop_first() == s@.skip(i + 1));
            if s[i] == '\r' {
                r.push('\n');
            } else {
                r.push(s[i]);
            }
            i += 1;
        }
        assert(unify_line_endings(s@) == r@ + unify_line_endings(s@.skip(i as int)));
    }
    assert(s@.skip(s.len() as int) =~= Seq::<char>::empty());
    assert(r@ + Seq::<char>::empty() == r@);
    r
}

/// Join `lines` with `'\n'` between them.
fn join_lines_exec(lines: &Vec<Vec<char>>) -> (r: Vec<char>)
    ensures
        r@ == join_lines(lines_view(lines@)),
{
    let ghost all = lines_view(lines@);
    if lines.len() == 0 {
        return Vec::new();
    }
    let mut r: Vec<char> = Vec::new();
    r.extend_from_slice(lines[0].as_slice());
    assert(all.take(1).drop_last().len() == 0);
    assert(r@ == join_lines(all.take(1)));
    let mut i: usize = 1;
    while i < lines.len()
        invariant
            1 <= i <= lines.len(),
            all == lines_view(lines@),
            r@ == join_lines(all.take(i as int)),
        decreases lines.len() - i,
    {
        r.push('\n');
        r.extend_from_slice(lines[i].as_slice());
        assert(all.take(i + 1).drop_last() == all.take(i as int));
        i += 1;
    }
    assert(all.take(lines.len() as int) == all);
    r
}

/// The text of `value` with cosmetic differences removed: line endings
/// become `"\n"`, every line loses its trailing whitespace, and blank lines
/// at the end are dropped along with the final line ending.
pub fn normalized_output(value: &str) -> (r: String)
    ensures
        r@ == normalized(value@),
{
    let chars = chars_of(value);
    let unified = unify_line_endings_exec(&chars);
    let lines = split_lines(&unified);
    let mut trimmed: Vec<Vec<char>> = Vec::new();
    for i in 0..lines.len()
        invariant
            lines_view(lines@) == text_lines(unify_line_endings(value@)),
            lines_view(trimmed@) == trim_line_ends(lines_view(lines@).take(i as int)),
    {
        let ghost before = lines_view(trimmed@);
        let line = trim_end_chars(&lines[i]);
        trimmed.push(line);
        assert(lines_view(trimmed@) =~= before.push(trim_end(lines@[i as int]@)));
        assert(lines_view(lines@).take(i + 1) == lines_view(lines@).take(i as int).push(
            lines@[i as int]@,
        ));
        assert(trim_line_ends(lines_view(lines@).take(i + 1)) =~= trim_line_ends(
            lines_view(lines@).take(i as int),
        ).push(trim_end(lines@[i as int]@)));
    }
    assert(lines_view(lines@).take(lines.len() as int) == lines_view(lines@));
    while trimmed.len() > 0 && trimmed[trimmed.len() - 1].len() == 0
        invariant
            drop_trailing_blank_lines(lines_view(trimmed@)) == drop_trailing_blank_lines(
                trim_line_ends(text_lines(unify_line_endings(value@))),
            ),
        decreases trimmed.len(),
    {
        let ghost before = lines_view(trimmed@);
        trimmed.pop();
        assert(lines_view(trimmed@) =~= before.drop_last());
    }
    assert(drop_trailing_blank_lines(lines_view(trimmed@)) == lines_view(trimmed@));
    let joined = join_lines_exec(&trimmed);
    string_of(&joined)
}

/// Whether two outputs agree once cosmetic differences are removed.
pub fn outputs_match_exactly(expected: &str, actual: &str) -> (r: bool)
    ensures
        r == (normalized(expected@) == normalized(actual@)),
{
    let e = normalized_output(expected);
    let a = normalized_output(actual);
    let ev = chars_of(e.as_str());
    let av = chars_of(a.as_str());
    same_chars(&ev, &av)
}

/// The whitespace-separated tokens of `value` once it is normalized, which
/// are what a comparison with a numeric tolerance pairs up.
pub fn output_tokens(value: &str) -> (r: Vec<String>)
    ensures
        r@.map_values(|t: String| t@) == whitespace_tokens(normalized(value@)),
{
    let n = normalized_output(value);
    let chars = chars_of(n.as_str());
    let mut tokens: Vec<String> = Vec::new();
    let mut open: Vec<char> = Vec::new();
    for i in 0..chars.len()
        invariant
            chars@ == normalized(value@),
            tokens@.map_values(|t: String| t@) == token_split(chars@.take(i as int)).0,
            open@ == token_split(chars@.take(i as int)).1,
    {
        let ghost before = chars@.take(i as int);
        assert(chars@.take(i + 1).drop_last() == before);
        assert(chars@.take(i + 1).last() == chars@[i as int]);
        let c = chars[i];
        if is_whitespace_char(c) {
            if open.len() > 0 {
                let ghost old_tokens = tokens@.map_values(|t: String| t@);
                let t = string_of(&open);
                tokens.push(t);
                assert(tokens@.map_values(|t: String| t@) =~= old_tokens.push(open@));
                open = Vec::new();
            }
        } else {
            open.push(c);
        }
    }
    assert(chars@.take(chars.len() as int) == chars@);
    if open.len() > 0 {
        let ghost old_tokens = tokens@.map_values(|t: String| t@);
        let t = string_of(&open);
        tokens.push(t);
        assert(tokens@.map_values(|t: String| t@) =~= old_tokens.push(open@));
    }
    tokens
}

/// `s` holds no `c`.
pub open spec fn lacks(s: Seq<char>, c: char) -> bool {
    forall|i: int| 0 <= i < s.len() ==> #[trigger] s[i] != c
}

/// Every line of `lines` holds neither `'\n'` nor `'\r'`.
pub open spec fn single_lines(lines: Seq<Seq<char>>) -> bool {
    forall|i: int| 0 <= i < lines.len() ==> lacks(#[trigger] lines[i], '\n') && lacks(lines[i], '\r')
}

proof fn lemma_unify_lacks_cr(s: Seq<char>)
    ensures
        lacks(unify_line_endings(s), '\r'),
    decreases s.len(),
{
    if s.len() == 0 {
    } else if s[0] == '\r' && s.len() > 1 && s[1] == '\n' {
        lemma_unify_lacks_cr(s.skip(2));
    } else {
        lemma_unify_lacks_cr(s.drop_first());
    }
}

proof fn lemma_unify_identity(s: Seq<char>)
    requires
        lacks(s, '\r'),
    ensures
        unify_line_endings(s) == s,
    decreases s.len(),
{
    if s.len() > 0 {
        assert(s[0] != '\r');
        lemma_unify_identity(s.drop_first());
        assert(seq![s[0]] + s.drop_first() == s);
    }
}

/// The pieces of a text hold no `'\n'`, and no `'\r'` if the text holds none.
proof fn lemma_line_split_pieces(s: Seq<char>)
    ensures
        lacks(line_split(s).1, '\n'),
        forall|i: int| 0 <= i < line_split(s).0.len() ==> lacks(#[trigger] line_split(s).0[i], '\n'),
        lacks(s, '\r') ==> lacks(line_split(s).1, '\r'),
        lacks(s, '\r') ==> forall|i: int| 0 <= i < line_split(s).0.len() ==> lacks(
            #[trigger] line_split(s).0[i],
            '\r',
        ),
    decreases s.len(),
{
    if s.len() > 0 {
        lemma_line_split_pieces(s.drop_last());
        if lacks(s, '\r') {
            assert(lacks(s.drop_last(), '\r'));
            assert(s[s.len() - 1] != '\r');
        }
    }
}

/// The lines of a text without `'\r'` are single lines.
proof fn lemma_text_lines_single(s: Seq<char>)
    requires
        lacks(s, '\r'),
    ensures
        single_lines(text_lines(s)),
{
    lemma_line_split_pieces(s);
    let (done, open) = line_split(s);
    assert forall|i: int| 0 <= i < done.len() implies strip_cr(done[i]) == done[i] by {
        if done[i].len() > 0 {
            assert(done[i][done[i].len() - 1] != '\r');
        }
    }
}

/// Trimming keeps single lines single.
proof fn lemma_trim_line_ends_single(lines: Seq<Seq<char>>)
    requires
        single_lines(lines),
    ensures
        single_lines(trim_line_ends(lines)),
        forall|i: int| 0 <= i < lines.len() ==> trim_end(#[trigger] trim_line_ends(lines)[i])
            == trim_line_ends(lines)[i],
{
    assert forall|i: int| 0 <= i < lines.len() implies lacks(#[trigger] trim_line_ends(lines)[i], '\n')
        && lacks(trim_line_ends(lines)[i], '\r') && trim_end(trim_line_ends(lines)[i])
        == trim_line_ends(lines)[i] by {
        lemma_trim_end_shape(lines[i]);
        let t = trim_end(lines[i]);
        assert forall|k: int| 0 <= k < t.len() implies t[k] != '\n' && t[k] != '\r' by {
            assert(t[k] == lines[i][k]);
        }
    }
}

/// Dropping blank lines at the end keeps a prefix whose last line is not blank.
proof fn lemma_drop_trailing_blank_shape(lines: Seq<Seq<char>>)
    ensures
        drop_trailing_blank_lines(lines).len() <= lines.len(),
        drop_trailing_blank_lines(lines) == lines.take(drop_trailing_blank_lines(lines).len() as int),
        drop_trailing_blank_lines(lines).len() > 0 ==> drop_trailing_blank_lines(lines).last().len()
            > 0,
    decreases lines.len(),
{
    if lines.len() > 0 && lines.last().len() == 0 {
        lemma_drop_trailing_blank_shape(lines.drop_last());
        assert(lines.drop_last().take(drop_trailing_blank_lines(lines).len() as int) == lines.take(
            drop_trailing_blank_lines(lines).len() as int,
        ));
    } else {
        assert(lines.take(lines.len() as int) == lines);
    }
}

/// Text without line endings extends the open piece of a line split.
proof fn lemma_line_split_append(a: Seq<char>, b: Seq<char>)
    requires
        lacks(b, '\n'),
    ensures
        line_split(a + b) == (line_split(a).0, line_split(a).1 + b),
    decreases b.len(),
{
    if b.len() == 0 {
        assert(a + b == a);
        assert(line_split(a).1 + b == line_split(a).1);
    } else {
        assert((a + b).drop_last() == a + b.drop_last());
        assert(b[b.len() - 1] != '\n');
        lemma_line_split_append(a, b.drop_last());
        assert(line_split(a).1 + b.drop_last() + seq![b.last()] == line_split(a).1 + b);
    }
}

/// Splitting joined single lines gives the lines back.
proof fn lemma_line_split_join(lines: Seq<Seq<char>>)
    requires
        lines.len() > 0,
        single_lines(lines),
    ensures
        line_split(join_lines(lines)) == (lines.drop_last(), lines.last()),
    decreases lines.len(),
{
    if lines.len() == 1 {
        lemma_line_split_append(Seq::empty(), lines[0]);
        assert(Seq::<char>::empty() + lines[0] == lines[0]);
        assert(lines.drop_last() =~= Seq::<Seq<char>>::empty());
    } else {
        let rest = lines.drop_last();
        assert(single_lines(rest));
        lemma_line_split_join(rest);
        let head = join_lines(rest).push('\n');
        assert(head.drop_last() == join_lines(rest));
        assert(rest.drop_last().push(rest.last()) =~= rest);
        assert(line_split(head) == (rest, Seq::<char>::empty()));
        assert(lacks(lines[lines.len() - 1], '\n'));
        lemma_line_split_append(head, lines.last());
        assert(Seq::<char>::empty() + lines.last() == lines.last());
    }
}

/// The lines of joined single lines, the last of which is not blank, are
/// those lines.
proof fn lemma_text_lines_join(lines: Seq<Seq<char>>)
    requires
        single_lines(lines),
        lines.len() > 0 ==> lines.last().len() > 0,
    ensures
        text_lines(join_lines(lines)) == lines,
{
    if lines.len() == 0 {
        assert(line_split(Seq::<char>::empty()).0.map_values(|l: Seq<char>| strip_cr(l))
            =~= Seq::<Seq<char>>::empty());
    } else {
        lemma_line_split_join(lines);
        let done = lines.drop_last();
        assert forall|i: int| 0 <= i < done.len() implies strip_cr(done[i]) == done[i] by {
            assert(lacks(lines[i], '\r'));
            if done[i].len() > 0 {
                assert(done[i][done[i].len() - 1] != '\r');
            }
        }
        assert(done.map_values(|l: Seq<char>| strip_cr(l)) =~= done);
        assert(done.push(lines.last()) =~= lines);
    }
}

/// Joined single lines hold no `'\r'`.
proof fn lemma_join_lacks_cr(lines: Seq<Seq<char>>)
    requires
        single_lines(lines),
    ensures
        lacks(join_lines(lines), '\r'),
    decreases lines.len(),
{
    if lines.len() == 1 {
        assert(lacks(lines[0], '\r'));
    } else if lines.len() > 1 {
        let rest = lines.drop_last();
        assert(single_lines(rest));
        lemma_join_lacks_cr(rest);
        assert(lacks(lines[lines.len() - 1], '\r'));
        let j = join_lines(rest).push('\n') + lines.last();
        assert forall|k: int| 0 <= k < j.len() implies j[k] != '\r' by {
            if k < join_lines(rest).len() {
            } else if k > join_lines(rest).len() {
                assert(j[k] == lines.last()[k - join_lines(rest).len() - 1]);
            }
        }
    }
}

/// Normalizing twice gives what normalizing once gives: a normalized output
/// has nothing cosmetic left to remove.
pub proof fn lemma_normalized_idempotent(value: Seq<char>)
    ensures
        normalized(normalized(value)) == normalized(value),
{
    let unified = unify_line_endings(value);
    lemma_unify_lacks_cr(value);
    lemma_text_lines_single(unified);
    let lines = text_lines(unified);
    lemma_trim_line_ends_single(lines);
    let trimmed = trim_line_ends(lines);
    lemma_drop_trailing_blank_shape(trimmed);
    let kept = drop_trailing_blank_lines(trimmed);
    assert forall|i: int| 0 <= i < kept.len() implies lacks(#[trigger] kept[i], '\n') && lacks(
        kept[i],
        '\r',
    ) && trim_end(kept[i]) == kept[i] by {
        assert(kept[i] == trimmed[i]);
    }
    let n = join_lines(kept);
    assert(n == normalized(value));
    lemma_join_lacks_cr(kept);
    lemma_unify_identity(n);
    lemma_text_lines_join(kept);
    assert(trim_line_ends(kept) =~= kept);
    lemma_drop_trailing_blank_shape(kept);
    if kept.len() > 0 {
        assert(drop_trailing_blank_lines(kept) == kept);
    } else {
        assert(drop_trailing_blank_lines(kept) == kept);
    }
}

/// Text that does not start with `'\n'` is unified on its own.
proof fn lemma_unify_concat_no_lf(x: Seq<char>, s: Seq<char>)
    requires
        s.len() == 0 || s[0] != '\n',
    ensures
        unify_line_endings(x + s) == unify_line_endings(x) + unify_line_endings(s),
    decreases x.len(),
{
    if x.len() == 0 {
        assert(x + s == s);
    } else if x[0] == '\r' && x.len() > 1 && x[1] == '\n' {
        assert((x + s).skip(2) == x.skip(2) + s);
        lemma_unify_concat_no_lf(x.skip(2), s);
    } else {
        assert((x + s).drop_first() == x.drop_first() + s);
        lemma_unify_concat_no_lf(x.drop_first(), s);
        if x[0] == '\r' && x.len() == 1 {
            assert(x.drop_first() + s == s);
        }
    }
}

/// Text that does not end with `'\r'` is unified on its own.
proof fn lemma_unify_concat_no_cr(x: Seq<char>, s: Seq<char>)
    requires
        x.len() == 0 || x.last() != '\r',
    ensures
        unify_line_endings(x + s) == unify_line_endings(x) + unify_line_endings(s),
    decreases x.len(),
{
    if x.len() == 0 {
        assert(x + s == s);
    } else if x[0] == '\r' && x.len() > 1 && x[1] == '\n' {
        assert((x + s).skip(2) == x.skip(2) + s);
        lemma_unify_concat_no_cr(x.skip(2), s);
    } else {
        assert((x + s).drop_first() == x.drop_first() + s);
        lemma_unify_concat_no_cr(x.drop_first(), s);
    }
}

/// The normalized form of text that is already unified.
pub open spec fn normalized_unified(u: Seq<char>) -> Seq<char> {
    join_lines(drop_trailing_blank_lines(trim_line_ends(text_lines(u))))
}

/// In unified text, one more whitespace character (a line ending among
/// them) changes nothing once normalized.
proof fn lemma_unified_push_white_space(u: Seq<char>, c: char)
    requires
        lacks(u, '\r'),
        is_white_space(c),
        c != '\r',
    ensures
        normalized_unified(u.push(c)) == normalized_unified(u),
{
    lemma_line_split_pieces(u);
    let (done, open) = line_split(u);
    assert(u.push(c).drop_last() == u);
    let d = done.map_values(|l: Seq<char>| strip_cr(l));
    let t = trim_line_ends(d);
    if c == '\n' {
        if open.len() > 0 {
            assert(open[open.len() - 1] != '\r');
        }
        assert(strip_cr(open) == open);
        assert(done.push(open).map_values(|l: Seq<char>| strip_cr(l)) =~= d.push(open));
        if open.len() == 0 {
            assert(trim_line_ends(d.push(open)) =~= t.push(open));
            assert(t.push(open).drop_last() == t);
        }
    } else {
        assert(open.push(c).drop_last() == open);
        assert(trim_end(open.push(c)) == trim_end(open));
        assert(trim_line_ends(d.push(open.push(c))) =~= t.push(trim_end(open)));
        if open.len() > 0 {
            assert(trim_line_ends(d.push(open)) =~= t.push(trim_end(open)));
        } else {
            assert(trim_end(open) == open);
            assert(t.push(open).drop_last() == t);
        }
    }
}

proof fn lemma_unify_single(c: char)
    ensures
        unify_line_endings(seq![c]) == (if c == '\r' {
            seq!['\n']
        } else {
            seq![c]
        }),
{
    let s = seq![c];
    assert(s.drop_first() =~= Seq::<char>::empty());
    assert(unify_line_endings(s.drop_first()) == Seq::<char>::empty());
    if c == '\r' {
        assert(seq!['\n'] + Seq::<char>::empty() =~= seq!['\n']);
    } else {
        assert(seq![s[0]] + Seq::<char>::empty() =~= seq![c]);
    }
}

/// One more whitespace character at the end of an output changes nothing
/// once normalized.
proof fn lemma_push_white_space(value: Seq<char>, c: char)
    requires
        is_white_space(c),
    ensures
        normalized(value.push(c)) == normalized(value),
{
    let u = unify_line_endings(value);
    lemma_unify_lacks_cr(value);
    if c == '\n' && value.len() > 0 && value.last() == '\r' {
        let y = value.drop_last();
        assert(value == y + seq!['\r']);
        assert(value.push(c) == y + seq!['\r', '\n']);
        lemma_unify_concat_no_lf(y, seq!['\r']);
        lemma_unify_concat_no_lf(y, seq!['\r', '\n']);
        lemma_unify_single('\r');
        assert(unify_line_endings(seq!['\r', '\n']) == seq!['\n']) by {
            let pair = seq!['\r', '\n'];
            assert(pair[0] == '\r' && pair[1] == '\n' && pair.len() == 2);
            assert(pair.skip(2) =~= Seq::<char>::empty());
            assert(unify_line_endings(pair.skip(2)) == Seq::<char>::empty());
            assert(seq!['\n'] + Seq::<char>::empty() =~= seq!['\n']);
        }
    } else {
        if c == '\n' {
            lemma_unify_concat_no_cr(value, seq![c]);
        } else {
            lemma_unify_concat_no_lf(value, seq![c]);
        }
        assert(value + seq![c] == value.push(c));
        lemma_unify_single(c);
        if c == '\r' {
            assert(unify_line_endings(seq![c]) == seq!['\n']);
            assert(u + seq!['\n'] == u.push('\n'));
            lemma_unified_push_white_space(u, '\n');
        } else {
            assert(unify_line_endings(seq![c]) == seq![c]);
            assert(u + seq![c] == u.push(c));
            lemma_unified_push_white_space(u, c);
        }
    }
}

/// Whitespace at the end of an output (spaces, tabs, line endings, blank
/// lines) never changes it once normalized, so such cosmetic differences do
/// not fail a case.
pub proof fn lemma_trailing_white_space_ignored(value: Seq<char>, tail: Seq<char>)
    requires
        forall|i: int| 0 <= i < tail.len() ==> is_white_space(#[trigger] tail[i]),
    ensures
        normalized(value + tail) == normalized(value),
    decreases tail.len(),
{
    if tail.len() == 0 {
        assert(value + tail == value);
    } else {
        lemma_trailing_white_space_ignored(value, tail.drop_last());
        assert(value + tail == (value + tail.drop_last()).push(tail.last()));
        lemma_push_white_space(value + tail.drop_last(), tail.last());
    }
}

} // verus!
