//! Judging C++ solutions against local test cases: the logic of the judge,
//! verified.
//!
//! The library prints nothing and runs nothing. It reads what a run
//! produced (a program's output, a sanitizer report, a debugger backtrace,
//! a dependency file, a test directory's file names) and decides what
//! became of each case.
pub mod cases;
pub mod compile;
pub mod depfile;
pub mod diff;
pub mod diagnose;
pub mod fingerprint;
pub mod order;
pub mod output;
pub mod paths;
pub mod report;
pub mod run;
pub mod text;

pub use cases::{select_case_names, CaseSelectionError};
pub use diff::{output_diff, DiffTag};
pub use compile::{cache_is_fresh, compiler_arguments};
pub use depfile::{parse_dependencies, parse_dependency_list, DepfileError};
pub use diagnose::{
    debugger_time_budget, find_location_for_file, find_source_location, gdb_arguments, lldb_arguments, quote_lldb,
    quote_lldb_argument, quote_shell, quote_shell_argument, Diagnostics, SourceLocation,
};
pub use fingerprint::{fingerprint, fingerprint_matches, fingerprint_text, hash_bytes};
pub use output::{normalized_output, output_tokens, outputs_match_exactly};
pub use report::{caret_padding, decimal_width, source_line_at};
pub use run::{
    build_profile, classify_run, compared_outcome, crash_lookup, crash_lookup_for_file,
    diagnostics_for, require_success, BuildProfile, CaseResult, CasesFailed, CrashLookup, Outcome,
    RunClass, Summary, TestCase,
};
