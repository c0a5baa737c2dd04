//! The decisions of a cached compilation: which arguments the compiler
//! gets, and when an earlier build can be reused.
use vstd::prelude::*;
use crate::diagnose::strings_view;
use crate::fingerprint::{fingerprint_matches, hex_digits};
use crate::text::trim;

verus! {

/// The compiler arguments that stand between the source file and the
/// dependency file's path: the language standard, the flags, one `-I` per
/// include directory (given as its text), and the request for a dependency
/// file.
pub open spec fn compiler_argument_list(
    standard: Seq<char>,
    flags: Seq<Seq<char>>,
    include_dirs: Seq<Seq<char>>,
) -> Seq<Seq<char>> {
    seq!["-std="@ + standard] + flags + include_dirs.map_values(|d: Seq<char>| "-I"@ + d) + seq![
        "-MMD"@,
        "-MF"@,
    ]
}

/// The compiler arguments between the source file and the dependency
/// file's path; the dependency file, `-o` and the binary follow them. Each
/// include directory is given as the text it is shown with.
pub fn compiler_arguments(standard: &str, flags: &Vec<String>, include_dirs: &Vec<String>) -> (r:
    Vec<String>)
    ensures
        strings_view(r@) == compiler_argument_list(
            standard@,
            strings_view(flags@),
            strings_view(include_dirs@),
        ),
{
    let mut args: Vec<String> = Vec::new();
    let mut first = "-std=".to_owned();
    first.append(standard);
    args.push(first);
    let ghost head = strings_view(args@);
    for i in 0..flags.len()
        invariant
            head == seq!["-std="@ + standard@],
            strings_view(args@) == head + strings_view(flags@).take(i as int),
    {
        let ghost before = strings_view(args@);
        args.push(flags[i].clone());
        assert(strings_view(args@) =~= before.push(flags@[i as int]@));
        assert(strings_view(flags@).take(i + 1) =~= strings_view(flags@).take(i as int).push(
            flags@[i as int]@,
        ));
    }
    assert(strings_view(flags@).take(flags.len() as int) == strings_view(flags@));
    let ghost with_flags = strings_view(args@);
    let ghost dirs = strings_view(include_dirs@).map_values(|d: Seq<char>| "-I"@ + d);
    for i in 0..include_dirs.len()
        invariant
            dirs == strings_view(include_dirs@).map_values(|d: Seq<char>| "-I"@ + d),
            strings_view(args@) == with_flags + dirs.take(i as int),
    {
        let ghost before = strings_view(args@);
        let mut arg = "-I".to_owned();
        arg.append(include_dirs[i].as_str());
        args.push(arg);
        assert(dirs[i as int] == "-I"@ + include_dirs@[i as int]@);
        assert(strings_view(args@) =~= before.push(dirs[i as int]));
        assert(dirs.take(i + 1) =~= dirs.take(i as int).push(dirs[i as int]));
    }
    assert(dirs.take(include_dirs.len() as int) == dirs);
    let ghost with_dirs = strings_view(args@);
    args.push("-MMD".to_owned());
    args.push("-MF".to_owned());
    assert(strings_view(args@) =~= with_dirs + seq!["-MMD"@, "-MF"@]);
    args
}

/// The arguments come in this order and hold nothing else: the language
/// standard, every flag, one `-I` argument for each include directory, in
/// the directories' order, and the two that ask for a dependency file.
pub proof fn lemma_compiler_argument_positions(
    standard: Seq<char>,
    flags: Seq<Seq<char>>,
    include_dirs: Seq<Seq<char>>,
)
    ensures
        ({
            let args = compiler_argument_list(standard, flags, include_dirs);
            let n = flags.len() as int;
            let d = include_dirs.len() as int;
            &&& args.len() == n + d + 3
            &&& args[0] == "-std="@ + standard
            &&& forall|k: int| 0 <= k < n ==> args[1 + k] == #[trigger] flags[k]
            &&& forall|k: int| 0 <= k < d ==> args[1 + n + k] == "-I"@ + #[trigger] include_dirs[k]
            &&& args[n + d + 1] == "-MMD"@
            &&& args[n + d + 2] == "-MF"@
        }),
{
}

/// Whether an earlier build can be reused: its binary and its stored
/// fingerprint are there, the current fingerprint could be computed, and
/// the stored text is that fingerprint.
pub open spec fn cache_fresh(
    binary_exists: bool,
    fingerprint_exists: bool,
    current: Option<u64>,
    stored: Option<Seq<char>>,
) -> bool {
    &&& binary_exists
    &&& fingerprint_exists
    &&& current matches Some(c)
    &&& stored matches Some(s)
    &&& trim(s) == hex_digits(c as nat, 16)
}

/// Whether an earlier build can be reused, from whether its binary and
/// fingerprint file exist, the current fingerprint (if the dependencies
/// could be read) and the stored fingerprint's text (if it could be read).
pub fn cache_is_fresh(
    binary_exists: bool,
    fingerprint_exists: bool,
    current: Option<u64>,
    stored: Option<&str>,
) -> (r: bool)
    ensures
        r == cache_fresh(
            binary_exists,
            fingerprint_exists,
            current,
            match stored {
                Some(s) => Some(s@),
                None => None,
            },
        ),
{
    if !binary_exists || !fingerprint_exists {
        return false;
    }
    match (current, stored) {
        (Some(c), Some(s)) => fingerprint_matches(s, c),
        _ => false,
    }
}

} // verus!
