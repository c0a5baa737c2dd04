use atcli_judge::{select_case_names, CaseSelectionError};

fn names(list: &[&str]) -> Vec<String> {
    list.iter().map(|s| s.to_string()).collect()
}

#[test]
fn keeps_input_files_in_name_order() {
    let files = names(&["sample-2.in", "sample-1.out", "my-1.in", "sample-1.in", "notes.txt", ".in", "a-b.in", "a.in"]);
    assert_eq!(
        select_case_names(&files, None),
        Ok(names(&["a-b", "a", "my-1", "sample-1", "sample-2"]))
    );
}

#[test]
fn selection_with_or_without_suffix() {
    let files = names(&["sample-1.in", "sample-2.in"]);
    assert_eq!(select_case_names(&files, Some("sample-2")), Ok(names(&["sample-2"])));
    assert_eq!(select_case_names(&files, Some("sample-1.in")), Ok(names(&["sample-1"])));
}

#[test]
fn selection_errors() {
    let files = names(&["sample-1.in"]);
    assert_eq!(
        select_case_names(&files, Some("sample-9.in")),
        Err(CaseSelectionError::NotFound("sample-9".to_string()))
    );
    assert_eq!(
        select_case_names(&names(&["readme.md"]), None),
        Err(CaseSelectionError::NoCases)
    );
}

#[test]
fn selection_error_messages() {
    assert_eq!(
        CaseSelectionError::NotFound("sample-9".to_string()).message("/p/tests"),
        "テストケースが見つかりません: sample-9"
    );
    assert_eq!(
        CaseSelectionError::NoCases.message("/p/tests"),
        "テストケースがありません: /p/tests"
    );
}
