//! Reading the Makefile dependency list that `-MMD` makes the compiler write.
use vstd::prelude::*;
use std::path::PathBuf;

use crate::paths::{path_buf_from, path_buf_of};
use crate::text::{chars_of, first_colon, first_colon_exec, is_white_space, is_whitespace_char, string_of};

verus! {

/// Why a dependency file could not be read.
#[derive(Clone, Copy, Debug, PartialEq, Eq, Structural)]
pub enum DepfileError {
    /// There is no `':'` between the target and its inputs.
    MissingColon,
    /// The target has no inputs.
    NoInputs,
}

impl DepfileError {
    /// The message that explains the error.
    pub fn message(&self) -> (m: &'static str)
        ensures
            *self == DepfileError::MissingColon ==> m@ == "依存ファイルの形式が不正です"@,
            *self == DepfileError::NoInputs ==> m@ == "依存ファイルに入力がありません"@,
    {
        match self {
            DepfileError::MissingColon => "依存ファイルの形式が不正です",
            DepfileError::NoInputs => "依存ファイルに入力がありません",
        }
    }
}

/// `s` with every line continuation (a `'\\'` before `"\r\n"` or `"\n"`)
/// turned into one space.
pub open spec fn join_continuations(s: Seq<char>) -> Seq<char>
    decreases s.len(),
{
    if s.len() == 0 {
        s
    } else if s.len() >= 3 && s[0] == '\\' && s[1] == '\r' && s[2] == '\n' {
        seq![' '] + join_continuations(s.skip(3))
    } else if s.len() >= 2 && s[0] == '\\' && s[1] == '\n' {
        seq![' '] + join_continuations(s.skip(2))
    } else {
        seq![s[0]] + join_continuations(s.drop_first())
    }
}

/// After reading `s`: the paths completed so far, the path being read, and
/// whether the last character was an escaping `'\\'`.
pub open spec fn dependency_scan(s: Seq<char>) -> (Seq<Seq<char>>, Seq<char>, bool)
    decreases s.len(),
{
    if s.len() == 0 {
        (Seq::empty(), Seq::empty(), false)
    } else {
        let (paths, current, escaped) = dependency_scan(s.drop_last());
        let c = s.last();
        if escaped {
            (paths, current.push(c), false)
        } else if c == '\\' {
            (paths, current, true)
        } else if is_white_space(c) {
            if current.len() > 0 {
                (paths.push(current), Seq::empty(), false)
            } else {
                (paths, current, false)
            }
        } else {
            (paths, current.push(c), false)
        }
    }
}

/// The paths that the inputs part of a dependency rule lists: whitespace
/// separates them, and `'\\'` makes the next character part of a path.
pub open spec fn dependency_list(inputs: Seq<char>) -> Seq<Seq<char>> {
    let (paths, current, escaped) = dependency_scan(inputs);
    let last = if escaped {
        current.push('\\')
    } else {
        current
    };
    if last.len() > 0 {
        paths.push(last)
    } else {
        paths
    }
}

/// The inputs that a dependency file lists after its first `':'`.
pub open spec fn parsed_dependencies(contents: Seq<char>) -> Result<Seq<Seq<char>>, DepfileError> {
    let joined = join_continuations(contents);
    match first_colon(joined) {
        None => Err(DepfileError::MissingColon),
        Some(i) => {
            let list = dependency_list(joined.skip(i + 1));
            if list.len() == 0 {
                Err(DepfileError::NoInputs)
            } else {
                Ok(list)
            }
        },
    }
}

/// Every path that a dependency list holds has at least one character.
pub proof fn lemma_dependency_paths_nonempty(inputs: Seq<char>)
    ensures
        forall|i: int|
            0 <= i < dependency_list(inputs).len() ==> #[trigger] dependency_list(inputs)[i].len()
                > 0,
{
    lemma_scan_paths_nonempty(inputs);
}

proof fn lemma_scan_paths_nonempty(s: Seq<char>)
    ensures
        forall|i: int|
            0 <= i < dependency_scan(s).0.len() ==> #[trigger] dependency_scan(s).0[i].len() > 0,
    decreases s.len(),
{
    if s.len() > 0 {
        lemma_scan_paths_nonempty(s.drop_last());
        let (paths, current, escaped) = dependency_scan(s.drop_last());
        let next = dependency_scan(s).0;
        assert forall|i: int| 0 <= i < next.len() implies #[trigger] next[i].len() > 0 by {
            if i < paths.len() {
                assert(next[i] == paths[i]);
            }
        }
    }
}

fn join_continuations_exec(s: &Vec<char>) -> (r: Vec<char>)
    ensures
        r@ == join_continuations(s@),
{
    let mut r: Vec<char> = Vec::new();
    let mut i: usize = 0;
    assert(s@.skip(0) == s@);
    while i < s.len()
        invariant
            i <= s.len(),
            join_continuations(s@) == r@ + join_continuations(s@.skip(i as int)),
        decreases s.len() - i,
    {
        let ghost rest = s@.skip(i as int);
        if s.len() - i > 2 && s[i] == '\\' && s[i + 1] == '\r' && s[i + 2] == '\n' {
            assert(rest.skip(3) == s@.skip(i + 3));
            r.push(' ');
            i += 3;
        } else if s.len() - i > 1 && s[i] == '\\' && s[i + 1] == '\n' {
            assert(rest.skip(2) == s@.skip(i + 2));
            r.push(' ');
            i += 2;
        } else {
            assert(rest.drop_first() == s@.skip(i + 1));
            r.push(s[i]);
            i += 1;
        }
        assert(join_continuations(s@) == r@ + join_continuations(s@.skip(i as int)));
    }
    assert(s@.skip(s.len() as int) =~= Seq::<char>::empty());
    assert(r@ + Seq::<char>::empty() == r@);
    r
}

/// The paths of a dependency list, as text.
fn dependency_list_exec(inputs: &Vec<char>) -> (r: Vec<String>)
    ensures
        r@.map_values(|p: String| p@) == dependency_list(inputs@),
{
    let mut paths: Vec<String> = Vec::new();
    let mut current: Vec<char> = Vec::new();
    let mut escaped = false;
    for i in 0..inputs.len()
        invariant
            (paths@.map_values(|p: String| p@), current@, escaped) == dependency_scan(
                inputs@.take(i as int),
            ),
    {
        assert(inputs@.take(i + 1).drop_last() == inputs@.take(i as int));
        assert(inputs@.take(i + 1).last() == inputs@[i as int]);
        let c = inputs[i];
        if escaped {
            current.push(c);
            escaped = false;
        } else if c == '\\' {
            escaped = true;
        } else if is_whitespace_char(c) {
            if current.len() > 0 {
                let ghost before = paths@.map_values(|p: String| p@);
                let path = string_of(&current);
                paths.push(path);
                assert(paths@.map_values(|p: String| p@) =~= before.push(current@));
                current = Vec::new();
            }
        } else {
            current.push(c);
        }
    }
    assert(inputs@.take(inputs.len() as int) == inputs@);
    if escaped {
        current.push('\\');
    }
    if current.len() > 0 {
        let ghost before = paths@.map_values(|p: String| p@);
        let path = string_of(&current);
        paths.push(path);
        assert(paths@.map_values(|p: String| p@) =~= before.push(current@));
    }
    paths
}

/// The inputs that a Makefile dependency rule lists, as text: everything
/// after the first `':'`, with line continuations joined, split at
/// whitespace, and with `'\\'` escaping the character after it.
pub fn parse_dependency_list(contents: &str) -> (r: Result<Vec<String>, DepfileError>)
    ensures
        r matches Ok(paths) ==> parsed_dependencies(contents@) == Ok::<Seq<Seq<char>>, DepfileError>(
            paths@.map_values(|p: String| p@),
        ),
        r matches Err(e) ==> parsed_dependencies(contents@) == Err::<Seq<Seq<char>>, DepfileError>(
            e,
        ),
{
    let chars = chars_of(contents);
    let joined = join_continuations_exec(&chars);
    match first_colon_exec(&joined) {
        None => Err(DepfileError::MissingColon),
        Some(i) => {
            let mut inputs: Vec<char> = Vec::new();
            let mut k = i + 1;
            while k < joined.len()
                invariant
                    i < joined.len(),
                    i + 1 <= k <= joined.len(),
                    inputs@ == joined@.subrange(i + 1, k as int),
                decreases joined.len() - k,
            {
                inputs.push(joined[k]);
                assert(joined@.subrange(i + 1, k + 1) == joined@.subrange(i + 1, k as int).push(
                    joined@[k as int],
                ));
                k += 1;
            }
            assert(inputs@ == joined@.skip(i + 1));
            let list = dependency_list_exec(&inputs);
            if list.len() == 0 {
                Err(DepfileError::NoInputs)
            } else {
                Ok(list)
            }
        },
    }
}

/// The files that a Makefile dependency rule, as the compiler's `-MMD`
/// writes it, names as inputs of its target. Each path is the text that
/// [`parse_dependency_list`] gives, made into a `PathBuf` ([`path_buf_of`]).
pub fn parse_dependencies(contents: &str) -> (r: Result<Vec<PathBuf>, DepfileError>)
    ensures
        r matches Ok(paths) ==> parsed_dependencies(contents@) matches Ok(list) && paths@
            == list.map_values(|t: Seq<char>| path_buf_of(t)),
        r matches Err(e) ==> parsed_dependencies(contents@) == Err::<Seq<Seq<char>>, DepfileError>(
            e,
        ),
{
    match parse_dependency_list(contents) {
        Err(e) => Err(e),
        Ok(list) => {
            let ghost texts = list@.map_values(|p: String| p@);
            let mut paths: Vec<PathBuf> = Vec::new();
            let mut i: usize = 0;
            while i < list.len()
                invariant
                    i <= list.len(),
                    texts == list@.map_values(|p: String| p@),
                    paths@ == texts.take(i as int).map_values(|t: Seq<char>| path_buf_of(t)),
                decreases list.len() - i,
            {
                let text = list[i].clone();
                assert(text@ == texts[i as int]);
                paths.push(path_buf_from(text));
                assert(texts.take(i + 1) == texts.take(i as int).push(texts[i as int]));
                assert(paths@ =~= texts.take(i + 1).map_values(|t: Seq<char>| path_buf_of(t)));
                i += 1;
            }
            assert(texts.take(list.len() as int) == texts);
            Ok(paths)
        },
    }
}

} // verus!
