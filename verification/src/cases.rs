//! Choosing the test cases of a directory: its `.in` files, in order.
use vstd::prelude::*;
use vstd::relations::sorted_by;

use crate::order::{name_order, sort_texts, texts_view};
use crate::text::{chars_of, same_chars, string_of, sub_chars};

verus! {

/// The suffix that marks a test input.
pub open spec fn input_suffix() -> Seq<char> {
    seq!['.', 'i', 'n']
}

/// Whether `name` ends with `.in`.
pub open spec fn ends_with_input_suffix(name: Seq<char>) -> bool {
    name.len() >= 3 && name.skip(name.len() - 3) == input_suffix()
}

/// The case that a file called `name` holds the input of: the file's stem
/// when its extension (as `Path::extension` reads it) is `in`, which takes a
/// name that ends with `.in` and has something before it.
pub open spec fn case_stem(name: Seq<char>) -> Option<Seq<char>> {
    if name.len() >= 4 && ends_with_input_suffix(name) {
        Some(name.take(name.len() - 3))
    } else {
        None
    }
}

/// The case that a selection names: the selection without a final `.in`.
pub open spec fn selection_stem(selected: Seq<char>) -> Seq<char> {
    if ends_with_input_suffix(selected) {
        selected.take(selected.len() - 3)
    } else {
        selected
    }
}

/// Whether the file called `name` is the input of a case that is kept.
pub open spec fn is_selected_input(name: Seq<char>, selected: Option<Seq<char>>) -> bool {
    match case_stem(name) {
        None => false,
        Some(stem) => match selected {
            None => true,
            Some(s) => selection_stem(s) == stem,
        },
    }
}

/// The file names of the kept cases, in directory order.
pub open spec fn selected_inputs(names: Seq<Seq<char>>, selected: Option<Seq<char>>) -> Seq<
    Seq<char>,
> {
    names.filter(selection_predicate(selected))
}

/// [`is_selected_input`] as a predicate on names.
pub open spec fn selection_predicate(selected: Option<Seq<char>>) -> spec_fn(Seq<char>) -> bool {
    |n: Seq<char>| is_selected_input(n, selected)
}

/// `stem` with `.in` behind it.
pub open spec fn input_file_name(stem: Seq<char>) -> Seq<char> {
    stem + input_suffix()
}

/// With a selection, a file is kept exactly when it is in the directory and
/// is named the selected case followed by `.in`, and the selection names a
/// case at all (something is left of it once a final `.in` is taken off).
/// So at most one case runs, and never one whose name only begins with the
/// selection.
pub proof fn lemma_selection_keeps_only_the_named_case(
    names: Seq<Seq<char>>,
    selected: Seq<char>,
    name: Seq<char>,
)
    ensures
        selected_inputs(names, Some(selected)).contains(name) <==> (names.contains(name)
            && selection_stem(selected).len() > 0 && name == input_file_name(
            selection_stem(selected),
        )),
{
    let pred = selection_predicate(Some(selected));
    let stem = selection_stem(selected);
    if selected_inputs(names, Some(selected)).contains(name) {
        names.lemma_filter_contains_rev(pred, name);
        let k = choose|k: int|
            0 <= k < names.filter(pred).len() && names.filter(pred)[k] == name;
        #[allow(deprecated)]
        names.filter_lemma(pred);
        assert(pred(names.filter(pred)[k]));
        assert(is_selected_input(name, Some(selected)));
        assert(name.take(name.len() - 3) == stem);
        assert(name =~= name.take(name.len() - 3) + name.skip(name.len() - 3));
    }
    if names.contains(name) && stem.len() > 0 && name == input_file_name(stem) {
        let k = choose|k: int| 0 <= k < names.len() && names[k] == name;
        assert(name.skip(name.len() - 3) =~= input_suffix());
        assert(name.take(name.len() - 3) =~= stem);
        assert(pred(names[k]));
        names.lemma_filter_contains(pred, k);
    }
}

/// Why no case was chosen.
#[derive(Clone, Debug, PartialEq, Eq)]
pub enum CaseSelectionError {
    /// No case has the selected name, which is given without `.in`.
    NotFound(String),
    /// The directory holds no `.in` file.
    NoCases,
}

impl CaseSelectionError {
    /// The message that explains the error; `dir_text` is how the test
    /// directory is shown.
    pub fn message(&self, dir_text: &str) -> (m: String)
        ensures
            self matches CaseSelectionError::NotFound(name) ==> m@ == "テストケースが見つかりません: "@
                + name@,
            *self == CaseSelectionError::NoCases ==> m@ == "テストケースがありません: "@ + dir_text@,
    {
        match self {
            CaseSelectionError::NotFound(name) => {
                let mut m = "テストケースが見つかりません: ".to_owned();
                m.append(name.as_str());
                m
            },
            CaseSelectionError::NoCases => {
                let mut m = "テストケースがありません: ".to_owned();
                m.append(dir_text);
                m
            },
        }
    }
}

/// The case names among `file_names`, the names of the files of a test
/// directory: one for each `.in` file, its name without `.in`, ordered as
/// the file names are, and only the case that `selected` names (with or
/// without `.in`) when there is a selection. When nothing is left, the
/// error says whether a selection found nothing or there were no cases.
pub fn select_case_names(file_names: &Vec<String>, selected: Option<&str>) -> (r: Result<
    Vec<String>,
    CaseSelectionError,
>)
    ensures
        ({
            let names = file_names@.map_values(|n: String| n@);
            let sel = match selected {
                Some(s) => Some(s@),
                None => None,
            };
            let kept = selected_inputs(names, sel);
            match r {
                Ok(stems) => {
                    let files = stems@.map_values(|s: String| input_file_name(s@));
                    &&& kept.len() > 0
                    &&& sorted_by(files, name_order())
                    &&& files.to_multiset() == kept.to_multiset()
                    &&& sel matches Some(x) ==> forall|k: int|
                        0 <= k < stems.len() ==> #[trigger] stems@[k]@ == selection_stem(x)
                },
                Err(CaseSelectionError::NotFound(s)) => kept.len() == 0 && (sel matches Some(x)
                    && s@ == selection_stem(x)),
                Err(CaseSelectionError::NoCases) => kept.len() == 0 && sel is None,
            }
        }),
{
    let ghost names = file_names@.map_values(|n: String| n@);
    let ghost sel = match selected {
        Some(s) => Some(s@),
        None => None,
    };
    let selected_stem: Option<Vec<char>> = match selected {
        None => None,
        Some(s) => {
            let chars = chars_of(s);
            if chars.len() >= 3 && chars[chars.len() - 3] == '.' && chars[chars.len() - 2] == 'i'
                && chars[chars.len() - 1] == 'n' {
                assert(chars@.skip(chars.len() - 3) =~= input_suffix());
                Some(sub_chars(&chars, 0, chars.len() - 3))
            } else {
                proof {
                    if chars@.len() >= 3 {
                        assert(chars@.skip(chars.len() - 3)[0] == chars@[chars.len() - 3]);
                        assert(chars@.skip(chars.len() - 3)[1] == chars@[chars.len() - 2]);
                        assert(chars@.skip(chars.len() - 3)[2] == chars@[chars.len() - 1]);
                    }
                }
                Some(chars)
            }
        },
    };
    let ghost pred = selection_predicate(sel);
    let mut kept: Vec<Vec<char>> = Vec::new();
    let mut i: usize = 0;
    while i < file_names.len()
        invariant
            i <= file_names.len(),
            names == file_names@.map_values(|n: String| n@),
            selected_stem matches Some(s) ==> (sel matches Some(x) && s@ == selection_stem(x)),
            selected_stem is None <==> sel is None,
            pred == selection_predicate(sel),
            texts_view(kept@) == names.take(i as int).filter(pred),
        decreases file_names.len() - i,
    {
        let name = chars_of(file_names[i].as_str());
        let len = name.len();
        let keep = if len >= 4 && name[len - 3] == '.' && name[len - 2] == 'i' && name[len - 1]
            == 'n' {
            assert(name@.skip(len - 3) =~= input_suffix());
            let stem = sub_chars(&name, 0, len - 3);
            match &selected_stem {
                None => true,
                Some(s) => same_chars(s, &stem),
            }
        } else {
            proof {
                if name@.len() >= 4 {
                    assert(name@.skip(len - 3)[0] == name@[len - 3]);
                    assert(name@.skip(len - 3)[1] == name@[len - 2]);
                    assert(name@.skip(len - 3)[2] == name@[len - 1]);
                }
            }
            false
        };
        assert(keep == pred(names[i as int]));
        proof {
            assert(names.take(i + 1) == names.take(i as int).push(names[i as int]));
            names.take(i as int).lemma_filter_push(names[i as int], pred);
        }
        if keep {
            let ghost before = texts_view(kept@);
            kept.push(name);
            assert(texts_view(kept@) =~= before.push(names[i as int]));
        }
        i += 1;
    }
    assert(names.take(file_names.len() as int) == names);
    assert(texts_view(kept@) == selected_inputs(names, sel));
    if kept.len() == 0 {
        return match selected_stem {
            Some(s) => Err(CaseSelectionError::NotFound(string_of(&s))),
            None => Err(CaseSelectionError::NoCases),
        };
    }
    let ghost kept_view = texts_view(kept@);
    let sorted = sort_texts(kept);
    let mut stems: Vec<String> = Vec::new();
    let mut k: usize = 0;
    while k < sorted.len()
        invariant
            k <= sorted.len(),
            kept_view.len() > 0,
            forall|m: int| 0 <= m < kept_view.len() ==> is_selected_input(#[trigger] kept_view[m], sel),
            texts_view(sorted@).to_multiset() == kept_view.to_multiset(),
            stems@.map_values(|s: String| input_file_name(s@)) == texts_view(sorted@).take(k as int),
            sel matches Some(x) ==> forall|j: int|
                0 <= j < k ==> #[trigger] stems@[j]@ == selection_stem(x),
        decreases sorted.len() - k,
    {
        let ghost file = sorted@[k as int]@;
        proof {
            assert(texts_view(sorted@)[k as int] == file);
            assert(texts_view(sorted@).contains(file));
            texts_view(sorted@).to_multiset_ensures();
            assert(texts_view(sorted@).to_multiset().count(file) > 0);
            assert(kept_view.to_multiset().count(file) > 0);
            kept_view.to_multiset_ensures();
            assert(kept_view.contains(file));
            let m = choose|m: int| 0 <= m < kept_view.len() && kept_view[m] == file;
            assert(is_selected_input(kept_view[m], sel));
        }
        let len = sorted[k].len();
        let stem = sub_chars(&sorted[k], 0, len - 3);
        assert(input_file_name(stem@) =~= file);
        assert(sel matches Some(x) ==> stem@ == selection_stem(x)) by {
            assert(case_stem(file) == Some(stem@));
        }
        let ghost before = stems@.map_values(|s: String| input_file_name(s@));
        stems.push(string_of(&stem));
        assert(stems@.map_values(|s: String| input_file_name(s@)) =~= before.push(file));
        assert(texts_view(sorted@).take(k + 1) =~= texts_view(sorted@).take(k as int).push(file));
        k += 1;
    }
    assert(texts_view(sorted@).take(sorted.len() as int) == texts_view(sorted@));
    Ok(stems)
}

} // verus!
