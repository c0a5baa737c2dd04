//! Character-level text model shared by the parsers of the library.
//!
//! Every string is read as the sequence of its `char`s. The spec functions
//! here describe, in those terms, the standard text operations the judge
//! relies on: line splitting, whitespace, trimming and decimal numbers.
use vstd::prelude::*;

verus! {

/// The Unicode `White_Space` property, which `char::is_whitespace` tests.
pub open spec fn is_white_space(c: char) -> bool {
    let u = c as u32;
    ||| 0x09 <= u <= 0x0D
    ||| u == 0x20
    ||| u == 0x85
    ||| u == 0xA0
    ||| u == 0x1680
    ||| 0x2000 <= u <= 0x200A
    ||| u == 0x2028
    ||| u == 0x2029
    ||| u == 0x202F
    ||| u == 0x205F
    ||| u == 0x3000
}

/// Whether `c` is Unicode whitespace.
pub fn is_whitespace_char(c: char) -> (b: bool)
    ensures
        b == is_white_space(c),
{
    let u = c as u32;
    (0x09 <= u && u <= 0x0D) || u == 0x20 || u == 0x85 || u == 0xA0 || u == 0x1680 || (0x2000
        <= u && u <= 0x200A) || u == 0x2028 || u == 0x2029 || u == 0x202F || u == 0x205F || u
        == 0x3000
}

/// `String::push` appends one character.
pub assume_specification[ String::push ](s: &mut String, ch: char)
    ensures
        final(s)@ == old(s)@.push(ch),
;

/// The characters of `s`, in order.
pub fn chars_of(s: &str) -> (v: Vec<char>)
    ensures
        v@ == s@,
{
    let mut v: Vec<char> = Vec::new();
    for c in it: s.chars()
        invariant
            v@ == it.seq().take(it.index() as int),
            it.seq() == s@,
    {
        v.push(c);
    }
    v
}

/// The string made of the characters of `v`.
pub fn string_of(v: &Vec<char>) -> (s: String)
    ensures
        s@ == v@,
{
    let mut s = String::new();
    for i in 0..v.len()
        invariant
            s@ == v@.take(i as int),
    {
        s.push(v[i]);
        assert(v@.take(i + 1) == v@.take(i as int).push(v@[i as int]));
    }
    assert(v@.take(v.len() as int) == v@);
    s
}

/// A copy of `v[from..to]`.
pub fn sub_chars(v: &Vec<char>, from: usize, to: usize) -> (r: Vec<char>)
    requires
        from <= to <= v.len(),
    ensures
        r@ == v@.subrange(from as int, to as int),
{
    let mut r: Vec<char> = Vec::new();
    let mut i = from;
    while i < to
        invariant
            from <= i <= to <= v.len(),
            r@ == v@.subrange(from as int, i as int),
        decreases to - i,
    {
        r.push(v[i]);
        assert(v@.subrange(from as int, i + 1) == v@.subrange(from as int, i as int).push(
            v@[i as int],
        ));
        i += 1;
    }
    r
}

/// Whether `a` and `b` hold the same characters.
pub fn same_chars(a: &Vec<char>, b: &Vec<char>) -> (r: bool)
    ensures
        r == (a@ == b@),
{
    if a.len() != b.len() {
        return false;
    }
    let mut i: usize = 0;
    while i < a.len()
        invariant
            a.len() == b.len(),
            i <= a.len(),
            forall|j: int| 0 <= j < i ==> a@[j] == b@[j],
        decreases a.len() - i,
    {
        if a[i] != b[i] {
            return false;
        }
        i += 1;
    }
    assert(a@ =~= b@);
    true
}

/// The state of line splitting after reading `s`: the pieces closed by a
/// `'\n'` so far, and the piece still open.
pub open spec fn line_split(s: Seq<char>) -> (Seq<Seq<char>>, Seq<char>)
    decreases s.len(),
{
    if s.len() == 0 {
        (Seq::empty(), Seq::empty())
    } else {
        let (done, open) = line_split(s.drop_last());
        if s.last() == '\n' {
            (done.push(open), Seq::empty())
        } else {
            (done, open.push(s.last()))
        }
    }
}

/// A line closed by `'\n'` also loses a `'\r'` just before it.
pub open spec fn strip_cr(line: Seq<char>) -> Seq<char> {
    if line.len() > 0 && line.last() == '\r' {
        line.drop_last()
    } else {
        line
    }
}

/// The lines of `s` as `str::lines` yields them: split at `"\n"` or
/// `"\r\n"`, with no empty line after a final line ending.
pub open spec fn text_lines(s: Seq<char>) -> Seq<Seq<char>> {
    let (done, open) = line_split(s);
    let ended = done.map_values(|l: Seq<char>| strip_cr(l));
    if open.len() == 0 {
        ended
    } else {
        ended.push(open)
    }
}

/// The character sequences held by a vector of lines.
pub open spec fn lines_view(lines: Seq<Vec<char>>) -> Seq<Seq<char>> {
    lines.map_values(|l: Vec<char>| l@)
}

/// The lines of `text`.
pub fn split_lines(text: &Vec<char>) -> (lines: Vec<Vec<char>>)
    ensures
        lines_view(lines@) == text_lines(text@),
{
    let mut lines: Vec<Vec<char>> = Vec::new();
    let mut open: Vec<char> = Vec::new();
    for i in 0..text.len()
        invariant
            lines_view(lines@) == line_split(text@.take(i as int)).0.map_values(
                |l: Seq<char>| strip_cr(l),
            ),
            open@ == line_split(text@.take(i as int)).1,
    {
        let ghost before = text@.take(i as int);
        assert(text@.take(i + 1).drop_last() == before);
        let c = text[i];
        assert(text@.take(i + 1).last() == c);
        if c == '\n' {
            let ghost done = line_split(before).0;
            let ghost open_before = open@;
            let mut line = open;
            if line.len() > 0 && line[line.len() - 1] == '\r' {
                line.pop();
            }
            assert(line@ == strip_cr(open_before));
            let ghost lines_before = lines_view(lines@);
            lines.push(line);
            assert(lines_view(lines@) =~= lines_before.push(strip_cr(open_before)));
            open = Vec::new();
            assert(done.push(line_split(before).1).map_values(|l: Seq<char>| strip_cr(l))
                =~= done.map_values(|l: Seq<char>| strip_cr(l)).push(
                strip_cr(line_split(before).1),
            ));
            assert(lines_view(lines@) =~= line_split(text@.take(i + 1)).0.map_values(
                |l: Seq<char>| strip_cr(l),
            ));
        } else {
            open.push(c);
        }
    }
    assert(text@.take(text.len() as int) == text@);
    if open.len() > 0 {
        let ghost lines_before = lines_view(lines@);
        let ghost open_before = open@;
        lines.push(open);
        assert(lines_view(lines@) =~= lines_before.push(open_before));
    }
    lines
}

/// `s` without its trailing whitespace, as `str::trim_end` leaves it.
pub open spec fn trim_end(s: Seq<char>) -> Seq<char>
    decreases s.len(),
{
    if s.len() > 0 && is_white_space(s.last()) {
        trim_end(s.drop_last())
    } else {
        s
    }
}

/// `s` without its leading whitespace, as `str::trim_start` leaves it.
pub open spec fn trim_start(s: Seq<char>) -> Seq<char>
    decreases s.len(),
{
    if s.len() > 0 && is_white_space(s[0]) {
        trim_start(s.drop_first())
    } else {
        s
    }
}

/// `s` without whitespace at either end, as `str::trim` leaves it.
pub open spec fn trim(s: Seq<char>) -> Seq<char> {
    trim_start(trim_end(s))
}

/// A trimmed line ends in something other than whitespace.
pub proof fn lemma_trim_end_shape(s: Seq<char>)
    ensures
        trim_end(s).len() <= s.len(),
        trim_end(s) == s.take(trim_end(s).len() as int),
        trim_end(s).len() > 0 ==> !is_white_space(trim_end(s).last()),
        trim_end(trim_end(s)) == trim_end(s),
    decreases s.len(),
{
    if s.len() > 0 && is_white_space(s.last()) {
        lemma_trim_end_shape(s.drop_last());
        assert(s.drop_last().take(trim_end(s).len() as int) == s.take(trim_end(s).len() as int));
    } else {
        assert(s.take(s.len() as int) == s);
    }
}

/// `v` without its trailing whitespace.
pub fn trim_end_chars(v: &Vec<char>) -> (r: Vec<char>)
    ensures
        r@ == trim_end(v@),
{
    let mut k = v.len();
    assert(v@.take(k as int) == v@);
    while k > 0 && is_whitespace_char(v[k - 1])
        invariant
            k <= v.len(),
            trim_end(v@.take(k as int)) == trim_end(v@),
        decreases k,
    {
        assert(v@.take(k as int).drop_last() == v@.take(k - 1));
        k -= 1;
    }
    sub_chars(v, 0, k)
}

/// `v` without whitespace at either end.
pub fn trim_chars(v: &Vec<char>) -> (r: Vec<char>)
    ensures
        r@ == trim(v@),
{
    let t = trim_end_chars(v);
    let mut k: usize = 0;
    assert(t@.skip(0) == t@);
    while k < t.len() && is_whitespace_char(t[k])
        invariant
            k <= t.len(),
            trim_start(t@.skip(k as int)) == trim_start(t@),
        decreases t.len() - k,
    {
        assert(t@.skip(k as int).drop_first() == t@.skip(k + 1));
        k += 1;
    }
    assert(t@.skip(0) == t@);
    sub_chars(&t, k, t.len())
}

/// Whether `c` is an ASCII decimal digit.
pub open spec fn is_digit(c: char) -> bool {
    '0' <= c <= '9'
}

/// The value of the decimal digit `c`.
pub open spec fn digit_value(c: char) -> int {
    (c as u32) - ('0' as u32)
}

/// The value of the decimal numeral `d`.
pub open spec fn decimal_value(d: Seq<char>) -> int
    decreases d.len(),
{
    if d.len() == 0 {
        0
    } else {
        decimal_value(d.drop_last()) * 10 + digit_value(d.last())
    }
}

/// Whether every character of `d` is a decimal digit.
pub open spec fn all_digits(d: Seq<char>) -> bool {
    forall|i: int| 0 <= i < d.len() ==> is_digit(#[trigger] d[i])
}

/// The digits of a numeral that may start with one `'+'`.
pub open spec fn unsigned_digits(s: Seq<char>) -> Seq<char> {
    if s.len() > 0 && s[0] == '+' {
        s.drop_first()
    } else {
        s
    }
}

/// What `s.parse::<usize>()` gives: an optional `'+'`, then at least one
/// decimal digit, with a value that fits in `usize`.
pub open spec fn parse_usize(s: Seq<char>) -> Option<usize> {
    let d = unsigned_digits(s);
    if d.len() > 0 && all_digits(d) && decimal_value(d) <= usize::MAX {
        Some(decimal_value(d) as usize)
    } else {
        None
    }
}

/// A numeral never loses value when digits are added behind it.
pub proof fn lemma_decimal_value_grows(d: Seq<char>, k: int)
    requires
        all_digits(d),
        0 <= k <= d.len(),
    ensures
        0 <= decimal_value(d.take(k)) <= decimal_value(d),
    decreases d.len(),
{
    if d.len() == 0 {
        assert(d.take(k) == d);
    } else if k == d.len() {
        assert(d.take(k) == d);
        lemma_decimal_value_grows(d.drop_last(), k - 1);
    } else {
        assert(d.drop_last().take(k) == d.take(k));
        lemma_decimal_value_grows(d.drop_last(), k);
        assert(is_digit(d[d.len() - 1]));
    }
}

/// The number that `s` spells, parsed as `str::parse::<usize>` does.
pub fn parse_usize_chars(s: &Vec<char>) -> (r: Option<usize>)
    ensures
        r == parse_usize(s@),
{
    let start: usize = if s.len() > 0 && s[0] == '+' {
        1
    } else {
        0
    };
    let ghost d = unsigned_digits(s@);
    assert(d == s@.skip(start as int));
    if start >= s.len() {
        return None;
    }
    let mut value: usize = 0;
    let mut i = start;
    assert(d.take(0) =~= Seq::<char>::empty());
    while i < s.len()
        invariant
            start <= i <= s.len(),
            d == s@.skip(start as int),
            d == unsigned_digits(s@),
            all_digits(d.take(i - start)),
            value == decimal_value(d.take(i - start)),
        decreases s.len() - i,
    {
        let c = s[i];
        let ghost prefix = d.take(i - start);
        let ghost next = d.take(i + 1 - start);
        assert(next.drop_last() == prefix);
        assert(next.last() == c);
        assert(c == d[i - start]);
        if !('0' <= c && c <= '9') {
            assert(!is_digit(d[i - start]));
            return None;
        }
        assert(all_digits(next));
        let digit = (c as u32 - '0' as u32) as usize;
        assert(decimal_value(next) == decimal_value(prefix) * 10 + digit);
        let shifted = value.checked_mul(10);
        let sum = match shifted {
            Some(m) => m.checked_add(digit),
            None => None,
        };
        match sum {
            Some(n) => {
                value = n;
            },
            None => {
                proof {
                    if all_digits(d) {
                        lemma_decimal_value_grows(d, i + 1 - start);
                    }
                }
                return None;
            },
        }
        i += 1;
    }
    assert(d.take(s.len() - start) == d);
    Some(value)
}

/// `i` is the index of the first `':'` in `s`.
pub open spec fn is_first_colon(s: Seq<char>, i: int) -> bool {
    &&& 0 <= i < s.len()
    &&& s[i] == ':'
    &&& forall|j: int| 0 <= j < i ==> s[j] != ':'
}

/// The index of the first `':'` in `s`.
pub open spec fn first_colon(s: Seq<char>) -> Option<int> {
    if exists|i: int| is_first_colon(s, i) {
        Some(choose|i: int| is_first_colon(s, i))
    } else {
        None
    }
}

/// The index of the first `':'` in `s`.
pub fn first_colon_exec(s: &Vec<char>) -> (r: Option<usize>)
    ensures
        r matches Some(i) ==> first_colon(s@) == Some(i as int),
        r is None ==> first_colon(s@) is None,
{
    let mut i: usize = 0;
    while i < s.len()
        invariant
            i <= s.len(),
            forall|j: int| 0 <= j < i ==> s@[j] != ':',
        decreases s.len() - i,
    {
        if s[i] == ':' {
            assert(is_first_colon(s@, i as int));
            assert forall|k: int| #[trigger] is_first_colon(s@, k) implies k == i by {
                if k < i {
                } else if k > i {
                    assert(s@[i as int] != ':');
                }
            }
            return Some(i);
        }
        i += 1;
    }
    assert forall|k: int| !is_first_colon(s@, k) by {}
    None
}

/// The decimal digit character for `d`.
pub open spec fn digit_char(d: int) -> char {
    (('0' as int) + d) as char
}

/// `n` written in decimal, as `usize::to_string` writes it.
pub open spec fn decimal_text(n: nat) -> Seq<char>
    decreases n,
{
    if n < 10 {
        seq![digit_char(n as int)]
    } else {
        decimal_text(n / 10).push(digit_char((n % 10) as int))
    }
}

fn decimal_digit(d: usize) -> (c: char)
    requires
        d < 10,
    ensures
        c == digit_char(d as int),
{
    let digits: [char; 10] = ['0', '1', '2', '3', '4', '5', '6', '7', '8', '9'];
    let c = digits[d];
    assert(c == digit_char(d as int)) by {
        assert(digits@ == seq!['0', '1', '2', '3', '4', '5', '6', '7', '8', '9']);
    }
    c
}

/// The characters of `n` written in decimal.
pub fn decimal_chars(n: usize) -> (r: Vec<char>)
    ensures
        r@ == decimal_text(n as nat),
    decreases n,
{
    if n < 10 {
        vec![decimal_digit(n)]
    } else {
        let mut r = decimal_chars(n / 10);
        r.push(decimal_digit(n % 10));
        r
    }
}

} // verus!
