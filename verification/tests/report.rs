use atcli_judge::{caret_padding, decimal_width, source_line_at};

#[test]
fn picks_the_named_source_line() {
    let contents = "int main() {\r\n\treturn 1 / 0;\n}\n";
    assert_eq!(source_line_at(contents, 2), Some("\treturn 1 / 0;".to_string()));
    assert_eq!(source_line_at(contents, 1), Some("int main() {".to_string()));
    assert_eq!(source_line_at(contents, 4), None);
}

#[test]
fn caret_padding_keeps_tabs() {
    assert_eq!(caret_padding("\treturn 1 / 0;", 10), "\t        ");
    assert_eq!(caret_padding("ab", 1), "");
    assert_eq!(caret_padding("ab", 0), "");
    assert_eq!(caret_padding("ab", 9), "  ");
}

#[test]
fn widths_of_line_numbers() {
    assert_eq!(decimal_width(0), 1);
    assert_eq!(decimal_width(9), 1);
    assert_eq!(decimal_width(10), 2);
    assert_eq!(decimal_width(12345), 5);
    assert_eq!(decimal_width(usize::MAX), usize::MAX.to_string().len());
}
