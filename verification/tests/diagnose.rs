use std::path::PathBuf;

use atcli_judge::{
    find_location_for_file, find_source_location, gdb_arguments, lldb_arguments, quote_lldb,
    quote_lldb_argument, quote_shell, quote_shell_argument, Diagnostics, SourceLocation,
};

#[test]
fn extracts_source_location_from_sanitizer_reports() {
    let source = PathBuf::from("/work/attempt/main.cpp");
    let address = "    #0 0x000102ddca90 in main main.cpp:5\n";
    let undefined = "main.cpp:4:15: runtime error: signed integer overflow: 2147483647 + 1 cannot be represented in type 'int'\n";

    assert_eq!(
        find_source_location(address, &source),
        Some(SourceLocation {
            line: 5,
            column: None,
        })
    );
    assert_eq!(
        find_source_location(undefined, &source),
        Some(SourceLocation {
            line: 4,
            column: Some(15),
        })
    );
}

#[test]
fn skips_sanitizer_frames_outside_the_solution() {
    let source = PathBuf::from("/work/attempt/main.cpp");
    let report = "==10907==ERROR: AddressSanitizer: heap-buffer-overflow on address 0x6020000000fc\nREAD of size 4 at 0x6020000000fc thread T0\n    #0 0x000102ddca90 in std::__1::vector<int>::operator[] vector:1387\n    #1 0x000102ddca90 in main main.cpp:9:20\n";

    assert_eq!(
        find_source_location(report, &source),
        Some(SourceLocation {
            line: 9,
            column: Some(20),
        })
    );
}

#[test]
fn extracts_source_location_from_lldb_and_gdb_backtraces() {
    let source = PathBuf::from("/work/attempt/main.cpp");
    let lldb = "frame #5: binary`main at main.cpp:15:34\n";
    let gdb = "#5  main () at /work/attempt/main.cpp:27\n";

    assert_eq!(
        find_source_location(lldb, &source),
        Some(SourceLocation {
            line: 15,
            column: Some(34),
        })
    );
    assert_eq!(
        find_source_location(gdb, &source),
        Some(SourceLocation {
            line: 27,
            column: None,
        })
    );
}

#[test]
fn first_line_naming_the_file_wins() {
    let output = "main.cpp:3:1: first\nmain.cpp:8:2: second\n";
    assert_eq!(
        find_location_for_file(output, "main.cpp"),
        Some(SourceLocation { line: 3, column: Some(1) })
    );
}

#[test]
fn last_marker_on_a_line_is_read() {
    let output = "main.cpp:1 called from main.cpp:12:7\n";
    assert_eq!(
        find_location_for_file(output, "main.cpp"),
        Some(SourceLocation { line: 12, column: Some(7) })
    );
}

#[test]
fn zero_line_or_garbage_names_no_position() {
    assert_eq!(find_location_for_file("main.cpp:0:3\n", "main.cpp"), None);
    assert_eq!(find_location_for_file("main.cpp:abc\n", "main.cpp"), None);
    assert_eq!(find_location_for_file("main.cpp:\n", "main.cpp"), None);
    assert_eq!(find_location_for_file("nothing here\n", "main.cpp"), None);
    assert_eq!(find_location_for_file("", "main.cpp"), None);
    assert_eq!(find_location_for_file("main.cpp:99999999999999999999999\n", "main.cpp"), None);
}

#[test]
fn bad_or_zero_column_is_dropped() {
    assert_eq!(
        find_location_for_file("main.cpp:7:0\n", "main.cpp"),
        Some(SourceLocation { line: 7, column: None })
    );
    assert_eq!(
        find_location_for_file("main.cpp:7:x\n", "main.cpp"),
        Some(SourceLocation { line: 7, column: None })
    );
    assert_eq!(
        find_location_for_file("main.cpp:7: 12 extra\n", "main.cpp"),
        Some(SourceLocation { line: 7, column: Some(12) })
    );
    assert_eq!(
        find_location_for_file("main.cpp:+7:+2\r\n", "main.cpp"),
        Some(SourceLocation { line: 7, column: Some(2) })
    );
}

#[test]
fn crlf_line_endings_are_stripped() {
    assert_eq!(
        find_location_for_file("x\r\nmain.cpp:5\r\n", "main.cpp"),
        Some(SourceLocation { line: 5, column: None })
    );
}

#[test]
fn path_without_file_name_finds_nothing() {
    let source = PathBuf::from("/");
    assert_eq!(find_source_location("main.cpp:5\n", &source), None);
}

#[test]
fn diagnostics_default_to_output() {
    assert_eq!(Diagnostics::default(), Diagnostics::Output);
}

#[test]
fn quotes_shell_and_lldb_arguments() {
    assert_eq!(quote_shell("/tmp/it's.in"), "'/tmp/it'\\''s.in'");
    assert_eq!(quote_lldb("/tmp/a\"b\\c.in"), "\"/tmp/a\\\"b\\\\c.in\"");
    assert_eq!(quote_shell_argument(&PathBuf::from("/tmp/a b.in")), "'/tmp/a b.in'");
    assert_eq!(quote_lldb_argument(&PathBuf::from("/tmp/a\"b.in")), "\"/tmp/a\\\"b.in\"");
}

#[test]
fn debugger_arguments_rerun_on_the_input() {
    let gdb = gdb_arguments(&PathBuf::from("/tmp/sample-1.in"));
    assert_eq!(
        gdb,
        vec![
            "--batch", "--quiet", "-ex", "set pagination off", "-ex", "run < '/tmp/sample-1.in'",
            "-ex", "bt 16", "--args"
        ]
    );
    let lldb = lldb_arguments(&PathBuf::from("/tmp/sample-1.in"));
    assert_eq!(
        lldb,
        vec![
            "--batch",
            "--no-lldbinit",
            "--source-quietly",
            "--no-use-colors",
            "-o",
            "settings set target.input-path \"/tmp/sample-1.in\"",
            "-o",
            "run",
            "-k",
            "bt 16",
            "-k",
            "process kill",
            "-k",
            "quit"
        ]
    );
}

#[test]
fn lines_about_other_files_are_skipped() {
    let skipped = "in vector:1387\nat /usr/include/c++/vector.h:42:7\n";
    let rest = "main.cpp:11:3\n";
    let combined = format!("{skipped}{rest}");
    assert_eq!(
        find_location_for_file(&combined, "main.cpp"),
        find_location_for_file(rest, "main.cpp")
    );
}

#[test]
fn names_ending_in_the_solution_name_are_other_files() {
    let source = PathBuf::from("/work/attempt/main.cpp");
    assert_eq!(
        find_source_location("    #0 0x1 in helper helper_main.cpp:12\n", &source),
        None
    );
    assert_eq!(
        find_location_for_file("at helper_main.cpp:12\nat (main.cpp:3:1 in f)\n", "main.cpp"),
        Some(SourceLocation { line: 3, column: Some(1) })
    );
    assert_eq!(
        find_location_for_file("frame `main.cpp:4:2\n", "main.cpp"),
        Some(SourceLocation { line: 4, column: Some(2) })
    );
}

#[test]
fn first_line_naming_a_position_wins_over_a_join() {
    let a = "noise\nmain.cpp:2:9";
    let b = "main.cpp:5\n";
    let joined = format!("{a}\n{b}");
    assert_eq!(
        find_location_for_file(&joined, "main.cpp"),
        find_location_for_file(a, "main.cpp").or(find_location_for_file(b, "main.cpp"))
    );
    let quiet = "noise";
    let joined = format!("{quiet}\n{b}");
    assert_eq!(
        find_location_for_file(&joined, "main.cpp"),
        find_location_for_file(b, "main.cpp")
    );
}

#[test]
fn debugger_time_budget_caps_the_limit() {
    assert_eq!(atcli_judge::debugger_time_budget(1, 500_000_000), (4, 500_000_000));
    assert_eq!(atcli_judge::debugger_time_budget(0, 0), (3, 0));
    assert_eq!(atcli_judge::debugger_time_budget(2, 0), (5, 0));
    assert_eq!(atcli_judge::debugger_time_budget(9, 1), (5, 0));
}

#[test]
fn any_non_name_character_may_precede_the_file_name() {
    assert_eq!(
        find_location_for_file("[main.cpp:12:3]\n", "main.cpp"),
        Some(SourceLocation { line: 12, column: None })
    );
    assert_eq!(
        find_location_for_file("[main.cpp:12:3 ]\n", "main.cpp"),
        Some(SourceLocation { line: 12, column: Some(3) })
    );
    assert_eq!(
        find_location_for_file("file=main.cpp:7\n", "main.cpp"),
        Some(SourceLocation { line: 7, column: None })
    );
    assert_eq!(
        find_location_for_file("x-main.cpp:7\nmy.main.cpp:8\n", "main.cpp"),
        None
    );
}
