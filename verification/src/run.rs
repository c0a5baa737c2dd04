//! What became of each test case, how the results add up, and the decisions
//! taken while judging a run.
use vstd::prelude::*;
use std::path::{Path, PathBuf};
use std::time::Duration;

use crate::diagnose::{find_location_for_file, output_location, Diagnostics, SourceLocation};
use crate::paths::{file_name_of, path_file_name};
use crate::text::{decimal_chars, decimal_text, string_of};

verus! {

/// One `.in` file and, when present, the `.out` file beside it.
#[derive(Clone, Debug)]
pub struct TestCase {
    pub name: String,
    pub input: PathBuf,
    pub expected: Option<PathBuf>,
}

/// What became of one test case.
#[derive(Clone, Debug)]
pub enum Outcome {
    Accepted,
    WrongAnswer { expected: String, actual: String },
    /// The process failed; `code` is its exit code, absent when a signal
    /// ended it, and `status` says how it ended.
    RuntimeError { code: Option<i32>, status: String, location: Option<SourceLocation> },
    TimeLimitExceeded,
    /// Ran to completion, but there was no `.out` file to compare against.
    Unchecked { stdout: String },
}

impl Outcome {
    /// Whether the outcome fails the case.
    pub open spec fn fails(&self) -> bool {
        match self {
            Outcome::WrongAnswer { .. } | Outcome::RuntimeError { .. } | Outcome::TimeLimitExceeded => true,
            _ => false,
        }
    }

    /// Whether the outcome fails the case: a wrong answer, a runtime error
    /// or a time limit exceeded.
    pub fn is_failure(&self) -> (b: bool)
        ensures
            b == self.fails(),
    {
        match self {
            Outcome::WrongAnswer { .. } | Outcome::RuntimeError { .. } | Outcome::TimeLimitExceeded => true,
            _ => false,
        }
    }
}

/// `Duration::clone`: a `Duration` is `Copy`, so its clone is the same
/// value.
pub assume_specification[ <Duration as Clone>::clone ](d: &Duration) -> (r: Duration)
    ensures
        r == *d,
;

/// What became of one test case, with how long it ran and what it wrote to
/// stderr.
#[derive(Clone, Debug)]
pub struct CaseResult {
    pub name: String,
    pub elapsed: Duration,
    pub stderr: String,
    pub outcome: Outcome,
}

/// Running counts over a set of [`CaseResult`]s.
#[derive(Clone, Copy, Debug, PartialEq, Eq, Structural)]
pub struct Summary {
    pub passed: usize,
    pub unchecked: usize,
    pub failed: usize,
}

impl Default for Summary {
    fn default() -> (s: Self)
        ensures
            s == (Summary { passed: 0, unchecked: 0, failed: 0 }),
    {
        Summary { passed: 0, unchecked: 0, failed: 0 }
    }
}

/// `summary` with `outcome` counted: an accepted case as passed, an
/// unchecked one as unchecked, any other as failed.
pub open spec fn counted(summary: Summary, outcome: Outcome) -> Summary {
    match outcome {
        Outcome::Accepted => Summary {
            passed: (summary.passed + 1) as usize,
            unchecked: summary.unchecked,
            failed: summary.failed,
        },
        Outcome::Unchecked { .. } => Summary {
            passed: summary.passed,
            unchecked: (summary.unchecked + 1) as usize,
            failed: summary.failed,
        },
        _ => Summary {
            passed: summary.passed,
            unchecked: summary.unchecked,
            failed: (summary.failed + 1) as usize,
        },
    }
}

/// Whether the counter that `outcome` goes to can still grow.
pub open spec fn can_count(summary: Summary, outcome: Outcome) -> bool {
    match outcome {
        Outcome::Accepted => summary.passed < usize::MAX,
        Outcome::Unchecked { .. } => summary.unchecked < usize::MAX,
        _ => summary.failed < usize::MAX,
    }
}

impl Summary {
    /// Count one more outcome.
    pub fn record(&mut self, outcome: &Outcome)
        requires
            can_count(*old(self), *outcome),
        ensures
            *final(self) == counted(*old(self), *outcome),
    {
        match outcome {
            Outcome::Accepted => self.passed += 1,
            Outcome::Unchecked { .. } => self.unchecked += 1,
            _ => self.failed += 1,
        }
    }

    /// Whether no case failed.
    pub fn is_success(&self) -> (b: bool)
        ensures
            b == (self.failed == 0),
    {
        self.failed == 0
    }
}

/// The counts over `outcomes`, recorded in order into an empty summary.
pub open spec fn summary_of(outcomes: Seq<Outcome>) -> Summary
    decreases outcomes.len(),
{
    if outcomes.len() == 0 {
        Summary { passed: 0, unchecked: 0, failed: 0 }
    } else {
        counted(summary_of(outcomes.drop_last()), outcomes.last())
    }
}

/// Every outcome is counted once: the three counts add up to the number of
/// outcomes, none of them can overflow while that number fits in `usize`,
/// and the failures counted are exactly the outcomes that fail.
pub proof fn lemma_summary_counts_every_outcome(outcomes: Seq<Outcome>)
    requires
        outcomes.len() <= usize::MAX,
    ensures
        summary_of(outcomes).passed + summary_of(outcomes).unchecked + summary_of(outcomes).failed
            == outcomes.len(),
        summary_of(outcomes).failed == outcomes.filter(|o: Outcome| o.fails()).len(),
        outcomes.len() > 0 ==> can_count(summary_of(outcomes.drop_last()), outcomes.last()),
    decreases outcomes.len(),
{
    if outcomes.len() > 0 {
        let rest = outcomes.drop_last();
        lemma_summary_counts_every_outcome(rest);
        assert(rest.push(outcomes.last()) == outcomes);
        rest.lemma_filter_push(outcomes.last(), |o: Outcome| o.fails());
    } else {
        assert(outcomes.filter(|o: Outcome| o.fails()) =~= Seq::<Outcome>::empty()) by {
            reveal(Seq::filter);
        }
    }
}

/// A run succeeds exactly when none of its outcomes fails.
pub proof fn lemma_success_iff_no_failure(outcomes: Seq<Outcome>)
    requires
        outcomes.len() <= usize::MAX,
    ensures
        (summary_of(outcomes).failed == 0) <==> forall|i: int|
            0 <= i < outcomes.len() ==> !(#[trigger] outcomes[i]).fails(),
    decreases outcomes.len(),
{
    if outcomes.len() > 0 {
        let rest = outcomes.drop_last();
        lemma_success_iff_no_failure(rest);
        lemma_summary_counts_every_outcome(outcomes);
        if summary_of(outcomes).failed == 0 {
            assert forall|i: int| 0 <= i < outcomes.len() implies !(#[trigger] outcomes[i]).fails() by {
                if i < rest.len() {
                    assert(rest[i] == outcomes[i]);
                }
            }
        } else {
            if !outcomes.last().fails() {
                let i = choose|i: int| 0 <= i < rest.len() && (#[trigger] rest[i]).fails();
                assert(outcomes[i] == rest[i]);
            }
        }
    }
}

/// The error of a run in which some case failed.
#[derive(Clone, Copy, Debug, PartialEq, Eq, Structural)]
pub struct CasesFailed {
    /// How many cases failed.
    pub failed: usize,
}

impl CasesFailed {
    /// The message that explains the error: `"<n> test case(s) failed"`.
    pub fn message(&self) -> (m: String)
        ensures
            m@ == decimal_text(self.failed as nat) + " test case(s) failed"@,
    {
        let digits = decimal_chars(self.failed);
        let mut m = string_of(&digits);
        m.append(" test case(s) failed");
        m
    }
}

/// Turn a finished run into a command result: the summary when no case
/// failed, else the number of failed cases.
pub fn require_success(summary: Summary) -> (r: Result<Summary, CasesFailed>)
    ensures
        summary.failed == 0 ==> r == Ok::<Summary, CasesFailed>(summary),
        summary.failed > 0 ==> r == Err::<Summary, CasesFailed>(CasesFailed { failed: summary.failed }),
{
    if !summary.is_success() {
        return Err(CasesFailed { failed: summary.failed });
    }
    Ok(summary)
}

/// The diagnostics of a release run or not, in a repository that allows
/// debugger re-runs or not.
pub open spec fn diagnostics_of(release: bool, crash_diagnostics: bool) -> Diagnostics {
    if release {
        Diagnostics::Off
    } else if crash_diagnostics {
        Diagnostics::Debugger
    } else {
        Diagnostics::Output
    }
}

/// The diagnostics a run gets. A release run mirrors what the judge server
/// runs, so it gets none; otherwise a silent crash is worth a debugger
/// re-run unless the repository turned that off.
pub fn diagnostics_for(release: bool, crash_diagnostics: bool) -> (d: Diagnostics)
    ensures
        d == diagnostics_of(release, crash_diagnostics),
{
    if release {
        Diagnostics::Off
    } else if crash_diagnostics {
        Diagnostics::Debugger
    } else {
        Diagnostics::Output
    }
}

/// How a finished run of the solution is judged.
#[derive(Clone, Copy, Debug, PartialEq, Eq, Structural)]
pub enum RunClass {
    /// It ran past the time limit.
    TimeLimitExceeded,
    /// It exited successfully and there is no expected output.
    Unchecked,
    /// It exited successfully; its output is compared with the expected one.
    CompareOutput,
    /// It failed; where it crashed is looked up.
    RuntimeError,
}

/// How a run that timed out or not, and exited successfully or not, is
/// judged when the case has an expected output or not.
pub open spec fn run_class(timed_out: bool, exited_successfully: bool, has_expected: bool) -> RunClass {
    if timed_out {
        RunClass::TimeLimitExceeded
    } else if exited_successfully {
        if has_expected {
            RunClass::CompareOutput
        } else {
            RunClass::Unchecked
        }
    } else {
        RunClass::RuntimeError
    }
}

/// Classify a finished run: a time-out comes first, then a successful exit
/// is checked against the expected output when there is one, and anything
/// else is a runtime error.
pub fn classify_run(timed_out: bool, exited_successfully: bool, has_expected: bool) -> (c: RunClass)
    ensures
        c == run_class(timed_out, exited_successfully, has_expected),
{
    if timed_out {
        RunClass::TimeLimitExceeded
    } else if exited_successfully {
        if has_expected {
            RunClass::CompareOutput
        } else {
            RunClass::Unchecked
        }
    } else {
        RunClass::RuntimeError
    }
}

/// A time-out is judged as such whatever else held; a run that ended in
/// time without exiting successfully is a runtime error, whether or not the
/// case has an expected output; and a run that ended in time and exited
/// successfully has its output compared exactly when there is an expected
/// output, and is otherwise left unchecked.
pub proof fn lemma_run_class_cases(timed_out: bool, exited_successfully: bool, has_expected: bool)
    ensures
        timed_out ==> run_class(timed_out, exited_successfully, has_expected)
            == RunClass::TimeLimitExceeded,
        !timed_out && !exited_successfully ==> run_class(
            timed_out,
            exited_successfully,
            has_expected,
        ) == RunClass::RuntimeError,
        !timed_out && exited_successfully && has_expected ==> run_class(
            timed_out,
            exited_successfully,
            has_expected,
        ) == RunClass::CompareOutput,
        run_class(timed_out, exited_successfully, has_expected) == RunClass::Unchecked <==> (
        !timed_out && exited_successfully && !has_expected),
{
}

/// The outcome of a run whose output was compared with the expected one.
pub fn compared_outcome(equal: bool, expected: String, actual: String) -> (o: Outcome)
    ensures
        equal ==> o == Outcome::Accepted,
        !equal ==> o == (Outcome::WrongAnswer { expected, actual }),
{
    if equal {
        Outcome::Accepted
    } else {
        Outcome::WrongAnswer { expected, actual }
    }
}

/// Where a crash is, as far as the crash's own output tells.
#[derive(Clone, Copy, Debug, PartialEq, Eq, Structural)]
pub enum CrashLookup {
    /// The output names this position.
    Located(SourceLocation),
    /// The output names none, and the crash is worth a debugger re-run.
    AskDebugger,
    /// No position is known.
    Unknown,
}

/// What is known of a crash's position from its stderr. Sanitizers name
/// the faulting line there, so that is read first (unless diagnostics are
/// off); only a death by a signal (no exit code) that named nothing is
/// worth a debugger re-run, and only when the debugger is allowed.
pub open spec fn crash_lookup_of(
    diagnostics: Diagnostics,
    stderr: Seq<char>,
    file_name: Option<Seq<char>>,
    exit_code: Option<i32>,
) -> CrashLookup {
    if diagnostics == Diagnostics::Off {
        CrashLookup::Unknown
    } else {
        let found = match file_name {
            Some(name) => output_location(stderr, name),
            None => None,
        };
        match found {
            Some(location) => CrashLookup::Located(location),
            None => if exit_code is None && diagnostics == Diagnostics::Debugger {
                CrashLookup::AskDebugger
            } else {
                CrashLookup::Unknown
            },
        }
    }
}

/// What is known of a crash's position, given the file name of the
/// solution's source.
pub fn crash_lookup_for_file(
    diagnostics: Diagnostics,
    stderr: &str,
    file_name: Option<&str>,
    exit_code: Option<i32>,
) -> (r: CrashLookup)
    ensures
        r == crash_lookup_of(
            diagnostics,
            stderr@,
            match file_name {
                Some(n) => Some(n@),
                None => None,
            },
            exit_code,
        ),
{
    if diagnostics == Diagnostics::Off {
        return CrashLookup::Unknown;
    }
    let found = match file_name {
        Some(name) => find_location_for_file(stderr, name),
        None => None,
    };
    match found {
        Some(location) => CrashLookup::Located(location),
        None => if exit_code.is_none() && diagnostics == Diagnostics::Debugger {
            CrashLookup::AskDebugger
        } else {
            CrashLookup::Unknown
        },
    }
}

/// What is known of a crash's position from its stderr, for the solution
/// at `source`; its file name is what `Path::file_name` gives.
pub fn crash_lookup(diagnostics: Diagnostics, stderr: &str, source: &Path, exit_code: Option<i32>) -> (r: CrashLookup)
    ensures
        r == crash_lookup_of(diagnostics, stderr@, file_name_of(source), exit_code),
{
    let name = path_file_name(source);
    let r = crash_lookup_for_file(diagnostics, stderr, name, exit_code);
    assert(r == crash_lookup_of(
        diagnostics,
        stderr@,
        match name {
            Some(n) => Some(n@),
            None => None,
        },
        exit_code,
    ));
    r
}

/// How a build is named: its profile and the binary it produces.
#[derive(Clone, Copy, Debug)]
pub struct BuildProfile {
    pub name: &'static str,
    pub binary_name: &'static str,
}

/// The profile of a release build or a debug build. Each has a binary of
/// its own, so the two builds are cached apart.
pub fn build_profile(release: bool) -> (p: BuildProfile)
    ensures
        release ==> p == (BuildProfile { name: "release", binary_name: "main-release" }),
        !release ==> p == (BuildProfile { name: "debug", binary_name: "main-debug" }),
{
    if release {
        BuildProfile { name: "release", binary_name: "main-release" }
    } else {
        BuildProfile { name: "debug", binary_name: "main-debug" }
    }
}

/// A release run looks for no crash position at all, and any other run
/// re-runs a crash under the debugger only when the repository allows it,
/// a signal ended the process, and its own output named no position.
pub proof fn lemma_debugger_only_for_silent_crashes(
    release: bool,
    crash_diagnostics: bool,
    stderr: Seq<char>,
    file_name: Option<Seq<char>>,
    exit_code: Option<i32>,
)
    ensures
        ({
            let lookup = crash_lookup_of(
                diagnostics_of(release, crash_diagnostics),
                stderr,
                file_name,
                exit_code,
            );
            &&& release ==> lookup == CrashLookup::Unknown
            &&& lookup == CrashLookup::AskDebugger ==> {
                &&& !release
                &&& crash_diagnostics
                &&& exit_code is None
                &&& (file_name matches Some(name) ==> output_location(stderr, name) is None)
            }
        }),
{
}

/// Unless diagnostics are off, a position that the crash's stderr names in
/// the solution's file is where the crash is reported, whatever the exit
/// status was; and no position is ever reported that the stderr does not
/// name.
pub proof fn lemma_stderr_position_comes_first(
    diagnostics: Diagnostics,
    stderr: Seq<char>,
    file_name: Option<Seq<char>>,
    exit_code: Option<i32>,
)
    ensures
        diagnostics != Diagnostics::Off ==> (file_name matches Some(name) ==> (output_location(
            stderr,
            name,
        ) matches Some(location) ==> crash_lookup_of(diagnostics, stderr, file_name, exit_code)
            == CrashLookup::Located(location))),
        crash_lookup_of(diagnostics, stderr, file_name, exit_code) matches CrashLookup::Located(
            location,
        ) ==> (file_name matches Some(name) && output_location(stderr, name) == Some(location)),
{
}

/// A case without an expected output is only run and shown: when it exits
/// successfully in time it is unchecked, which is no failure and is not
/// counted as one.
pub proof fn lemma_cases_without_expected_output_never_fail(summary: Summary, stdout: String)
    requires
        summary.unchecked < usize::MAX,
    ensures
        run_class(false, true, false) == RunClass::Unchecked,
        !(Outcome::Unchecked { stdout }).fails(),
        counted(summary, Outcome::Unchecked { stdout }).failed == summary.failed,
        counted(summary, Outcome::Unchecked { stdout }).unchecked == summary.unchecked + 1,
{
}

} // verus!
