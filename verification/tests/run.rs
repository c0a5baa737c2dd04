use atcli_judge::{
    CaseResult, TestCase,
    build_profile, classify_run, compared_outcome, crash_lookup, crash_lookup_for_file,
    diagnostics_for, require_success, CasesFailed, CrashLookup, Diagnostics, Outcome, RunClass,
    SourceLocation, Summary,
};
use std::path::PathBuf;

fn runtime_error() -> Outcome {
    Outcome::RuntimeError {
        code: Some(1),
        status: "exit status: 1".to_string(),
        location: None,
    }
}

#[test]
fn records_each_outcome_once() {
    let outcomes = vec![
        Outcome::Accepted,
        Outcome::Unchecked { stdout: "x".to_string() },
        Outcome::WrongAnswer { expected: "1".to_string(), actual: "2".to_string() },
        runtime_error(),
        Outcome::TimeLimitExceeded,
        Outcome::Accepted,
    ];
    let mut summary = Summary::default();
    for outcome in &outcomes {
        summary.record(outcome);
    }
    assert_eq!(summary, Summary { passed: 2, unchecked: 1, failed: 3 });
    assert_eq!(summary.passed + summary.unchecked + summary.failed, outcomes.len());
    assert!(!summary.is_success());
}

#[test]
fn success_iff_nothing_failed() {
    let mut summary = Summary::default();
    summary.record(&Outcome::Accepted);
    summary.record(&Outcome::Unchecked { stdout: String::new() });
    assert!(summary.is_success());
    assert_eq!(require_success(summary), Ok(summary));
    summary.record(&Outcome::TimeLimitExceeded);
    assert!(!summary.is_success());
    assert_eq!(require_success(summary), Err(CasesFailed { failed: 1 }));
}

#[test]
fn failures_are_wrong_answers_runtime_errors_and_timeouts() {
    assert!(!Outcome::Accepted.is_failure());
    assert!(!Outcome::Unchecked { stdout: String::new() }.is_failure());
    assert!(Outcome::WrongAnswer { expected: String::new(), actual: String::new() }.is_failure());
    assert!(runtime_error().is_failure());
    assert!(Outcome::TimeLimitExceeded.is_failure());
}

#[test]
fn diagnostics_follow_release_and_config() {
    assert_eq!(diagnostics_for(true, true), Diagnostics::Off);
    assert_eq!(diagnostics_for(true, false), Diagnostics::Off);
    assert_eq!(diagnostics_for(false, true), Diagnostics::Debugger);
    assert_eq!(diagnostics_for(false, false), Diagnostics::Output);
}

#[test]
fn classifies_finished_runs() {
    assert_eq!(classify_run(true, true, true), RunClass::TimeLimitExceeded);
    assert_eq!(classify_run(true, false, false), RunClass::TimeLimitExceeded);
    assert_eq!(classify_run(false, true, true), RunClass::CompareOutput);
    assert_eq!(classify_run(false, true, false), RunClass::Unchecked);
    assert_eq!(classify_run(false, false, true), RunClass::RuntimeError);
}

#[test]
fn compared_outcomes() {
    assert!(matches!(compared_outcome(true, "1".to_string(), "1".to_string()), Outcome::Accepted));
    match compared_outcome(false, "1".to_string(), "2".to_string()) {
        Outcome::WrongAnswer { expected, actual } => {
            assert_eq!(expected, "1");
            assert_eq!(actual, "2");
        }
        _ => panic!("expected a wrong answer"),
    }
}

#[test]
fn crash_lookup_reads_stderr_first() {
    let stderr = "main.cpp:4:15: runtime error\n";
    assert_eq!(
        crash_lookup_for_file(Diagnostics::Output, stderr, Some("main.cpp"), Some(1)),
        CrashLookup::Located(SourceLocation { line: 4, column: Some(15) })
    );
    assert_eq!(
        crash_lookup_for_file(Diagnostics::Off, stderr, Some("main.cpp"), None),
        CrashLookup::Unknown
    );
    assert_eq!(
        crash_lookup_for_file(Diagnostics::Debugger, "", Some("main.cpp"), None),
        CrashLookup::AskDebugger
    );
    assert_eq!(
        crash_lookup_for_file(Diagnostics::Debugger, "", Some("main.cpp"), Some(3)),
        CrashLookup::Unknown
    );
    assert_eq!(
        crash_lookup_for_file(Diagnostics::Output, "", Some("main.cpp"), None),
        CrashLookup::Unknown
    );
    let source = PathBuf::from("/work/main.cpp");
    assert_eq!(
        crash_lookup(Diagnostics::Debugger, "at main.cpp:9\n", &source, None),
        CrashLookup::Located(SourceLocation { line: 9, column: None })
    );
}

#[test]
fn profiles_name_their_binaries() {
    let release = build_profile(true);
    assert_eq!(release.name, "release");
    assert_eq!(release.binary_name, "main-release");
    let debug = build_profile(false);
    assert_eq!(debug.name, "debug");
    assert_eq!(debug.binary_name, "main-debug");
}

#[test]
fn failed_run_message() {
    assert_eq!(CasesFailed { failed: 3 }.message(), "3 test case(s) failed");
    assert_eq!(CasesFailed { failed: 120 }.message(), "120 test case(s) failed");
}

#[test]
fn cases_and_results_clone() {
    let case = TestCase {
        name: "sample-1".to_string(),
        input: PathBuf::from("/t/sample-1.in"),
        expected: Some(PathBuf::from("/t/sample-1.out")),
    };
    let copy = case.clone();
    assert_eq!(copy.name, "sample-1");
    assert_eq!(copy.input, case.input);
    assert_eq!(copy.expected, case.expected);
    let result = CaseResult {
        name: "sample-1".to_string(),
        elapsed: std::time::Duration::from_millis(12),
        stderr: "e".to_string(),
        outcome: Outcome::Accepted,
    };
    let copy = result.clone();
    assert_eq!(copy.elapsed, result.elapsed);
    assert_eq!(copy.stderr, "e");
}
