use std::path::PathBuf;

use atcli_judge::{parse_dependencies, parse_dependency_list, DepfileError};

#[test]
fn parses_makefile_dependencies_with_continuations_and_spaces() {
    let depfile = "main: /tmp/main.cpp \\\n /tmp/local\\ header.hpp\n";
    let dependencies = parse_dependencies(depfile).unwrap();
    assert_eq!(
        dependencies,
        [
            PathBuf::from("/tmp/main.cpp"),
            PathBuf::from("/tmp/local header.hpp"),
        ]
    );
}

#[test]
fn crlf_continuations_and_trailing_backslash() {
    let list = parse_dependency_list("a.o: x.cpp \\\r\n y.hpp z\\").unwrap();
    assert_eq!(list, vec!["x.cpp", "y.hpp", "z\\"]);
}

#[test]
fn depfile_errors() {
    assert_eq!(parse_dependency_list("no colon here"), Err(DepfileError::MissingColon));
    assert_eq!(parse_dependency_list("main:   \n"), Err(DepfileError::NoInputs));
    assert_eq!(parse_dependencies("main:"), Err(DepfileError::NoInputs));
    assert_eq!(DepfileError::MissingColon.message(), "依存ファイルの形式が不正です");
    assert_eq!(DepfileError::NoInputs.message(), "依存ファイルに入力がありません");
}
