//! The runner engine's decisions.
//!
//! The engine never spawns a process itself: the surrounding program
//! performs one external step at a time (compile, execute, read the
//! source back) and hands the outcome in as a plain value. Every branch
//! on such an outcome is decided here, exhaustively, so the failure
//! handling of the whole engine is captured by these contracts.

use vstd::prelude::*;

use crate::text;

verus! {

/// Result of one external process: it ran and succeeded, it ran and
/// reported failure, or it could not be started at all.
#[derive(Clone, Copy, Debug, PartialEq, Eq, Structural)]
pub enum ProcessResult {
    Success,
    NonZeroExit,
    SpawnError,
}

/// The two ways an exercise is built: a plain build, or a test build.
#[derive(Clone, Copy, Debug, PartialEq, Eq, Structural)]
pub enum RunMode {
    Plain,
    Test,
}

/// Everything a finished run can report to the user.
#[derive(Clone, Copy, Debug, PartialEq, Eq, Structural)]
pub enum RunReport {
    /// The exercise name resolved to no file; nothing was compiled or run.
    NotFound,
    /// The compiler could not be spawned.
    CompilerUnavailable,
    /// The compiler ran and reported failure; nothing was executed.
    CompileFailed,
    /// The produced binary could not be launched.
    ExecutionFailed,
    /// A plain run finished and the marker is gone: the exercise is done.
    CompletedClean,
    /// A plain run finished but the marker is still in the source.
    CompletedMarkerPresent,
    /// The test binary succeeded and the marker is gone.
    TestsPassedClean,
    /// The test binary succeeded but the marker is still in the source.
    TestsPassedMarkerPresent,
    /// The test binary ran and reported failure; the marker is not checked.
    TestsFailed,
}

/// After the produced binary was executed, either the source must be read
/// back for the marker, or the run is over with a report.
#[derive(Clone, Copy, Debug, PartialEq, Eq, Structural)]
pub enum AfterRun {
    CheckMarker,
    Report(RunReport),
}

/// The unsolved-exercise marker: its presence anywhere in the source text
/// means the exercise is not done yet.
pub open spec fn marker() -> Seq<char> {
    "// I AM NOT DONE"@
}

/// How the locator's answer begins a run: only a found file leads to a
/// compile; an unresolved name ends the run with `NotFound` before any
/// process is spawned.
pub fn plan_after_locate(found: Option<String>) -> (r: Result<String, RunReport>)
    ensures
        match found {
            None => r matches Err(rep) && rep == RunReport::NotFound,
            Some(p) => r matches Ok(q) && q@ == p@,
        },
{
    match found {
        None => Err(RunReport::NotFound),
        Some(p) => Ok(p),
    }
}

/// What the compile outcome decides.
pub open spec fn spec_after_compile(compile: ProcessResult) -> Option<RunReport> {
    match compile {
        ProcessResult::Success => None,
        ProcessResult::NonZeroExit => Some(RunReport::CompileFailed),
        ProcessResult::SpawnError => Some(RunReport::CompilerUnavailable),
    }
}

/// Decide on the compile outcome: only a successful compile goes on to
/// execute; a failed compile and an unspawnable compiler end the run with
/// their own reports.
pub fn after_compile(compile: ProcessResult) -> (r: Option<RunReport>)
    ensures
        r == spec_after_compile(compile),
{
    match compile {
        ProcessResult::Success => None,
        ProcessResult::NonZeroExit => Some(RunReport::CompileFailed),
        ProcessResult::SpawnError => Some(RunReport::CompilerUnavailable),
    }
}

/// What the execution outcome decides. A plain run checks the marker
/// whenever the binary could be launched, whatever its exit status; a
/// test run checks it only on a successful exit, and a failed exit is
/// reported without looking at the marker.
pub open spec fn spec_after_execute(mode: RunMode, run: ProcessResult) -> AfterRun {
    match run {
        ProcessResult::SpawnError => AfterRun::Report(RunReport::ExecutionFailed),
        ProcessResult::Success => AfterRun::CheckMarker,
        ProcessResult::NonZeroExit => match mode {
            RunMode::Plain => AfterRun::CheckMarker,
            RunMode::Test => AfterRun::Report(RunReport::TestsFailed),
        },
    }
}

/// Decide on the execution outcome.
pub fn after_execute(mode: RunMode, run: ProcessResult) -> (r: AfterRun)
    ensures
        r == spec_after_execute(mode, run),
{
    match run {
        ProcessResult::SpawnError => AfterRun::Report(RunReport::ExecutionFailed),
        ProcessResult::Success => AfterRun::CheckMarker,
        ProcessResult::NonZeroExit => match mode {
            RunMode::Plain => AfterRun::CheckMarker,
            RunMode::Test => AfterRun::Report(RunReport::TestsFailed),
        },
    }
}

/// What the marker decides once it has been read back.
pub open spec fn spec_marker_report(mode: RunMode, marker_present: bool) -> RunReport {
    match mode {
        RunMode::Plain => if marker_present {
            RunReport::CompletedMarkerPresent
        } else {
            RunReport::CompletedClean
        },
        RunMode::Test => if marker_present {
            RunReport::TestsPassedMarkerPresent
        } else {
            RunReport::TestsPassedClean
        },
    }
}

/// Report on the marker once it has been read back.
pub fn marker_report(mode: RunMode, marker_present: bool) -> (r: RunReport)
    ensures
        r == spec_marker_report(mode, marker_present),
{
    match mode {
        RunMode::Plain => if marker_present {
            RunReport::CompletedMarkerPresent
        } else {
            RunReport::CompletedClean
        },
        RunMode::Test => if marker_present {
            RunReport::TestsPassedMarkerPresent
        } else {
            RunReport::TestsPassedClean
        },
    }
}

/// Whether the marker is present in the given source text.
pub fn marker_present(content: &str) -> (r: bool)
    ensures
        r == text::contains_seq(content@, marker()),
{
    text::contains_str(content, "// I AM NOT DONE")
}

/// The whole report of a run whose binary could be launched and whose
/// marker, where it matters, reads `marker_present`.
pub open spec fn spec_run_report(mode: RunMode, run: ProcessResult, marker_present: bool) -> RunReport {
    match spec_after_execute(mode, run) {
        AfterRun::Report(rep) => rep,
        AfterRun::CheckMarker => spec_marker_report(mode, marker_present),
    }
}

/// A plain run's completion report depends only on the marker, never on
/// the executed program's own exit status.
pub proof fn lemma_plain_report_ignores_exit(
    run1: ProcessResult,
    run2: ProcessResult,
    marker_present: bool,
)
    requires
        run1 != ProcessResult::SpawnError,
        run2 != ProcessResult::SpawnError,
    ensures
        spec_run_report(RunMode::Plain, run1, marker_present) == spec_run_report(
            RunMode::Plain,
            run2,
            marker_present,
        ),
        spec_run_report(RunMode::Plain, run1, marker_present) == spec_marker_report(
            RunMode::Plain,
            marker_present,
        ),
{
}

/// A test run reports a pass exactly when the binary's own exit status is
/// success, and the marker is looked at only on that path.
pub proof fn lemma_test_pass_iff_exit_success(run: ProcessResult, marker_present: bool)
    ensures
        (spec_run_report(RunMode::Test, run, marker_present) == RunReport::TestsPassedClean
            || spec_run_report(RunMode::Test, run, marker_present)
            == RunReport::TestsPassedMarkerPresent) <==> run == ProcessResult::Success,
        spec_after_execute(RunMode::Test, run) == AfterRun::CheckMarker <==> run
            == ProcessResult::Success,
{
}

/// Whether this run marks the exercise complete in the progress record:
/// only a test build whose binary exited successfully does.
pub fn should_mark_completed(mode: RunMode, run: ProcessResult) -> (r: bool)
    ensures
        r == (mode == RunMode::Test && run == ProcessResult::Success),
{
    match (mode, run) {
        (RunMode::Test, ProcessResult::Success) => true,
        _ => false,
    }
}

/// The external compiler the runner invokes.
pub fn compiler_name() -> (r: &'static str)
    ensures
        r@ == "rustc"@,
{
    "rustc"
}

/// The argument list of one compiler invocation, exactly as the external
/// interface fixes it: the test flag in test mode, then the source path,
/// then the output option with the temporary binary's name.
pub fn compiler_args(mode: RunMode, source: &str, output: &str) -> (r: Vec<String>)
    ensures
        mode == RunMode::Plain ==> r@.len() == 3 && r@[0]@ == source@ && r@[1]@ == "-o"@
            && r@[2]@ == output@,
        mode == RunMode::Test ==> r@.len() == 4 && r@[0]@ == "--test"@ && r@[1]@ == source@
            && r@[2]@ == "-o"@ && r@[3]@ == output@,
{
    let mut v: Vec<String> = Vec::new();
    match mode {
        RunMode::Plain => {},
        RunMode::Test => v.push(String::from_str("--test")),
    }
    v.push(source.to_owned());
    v.push(String::from_str("-o"));
    v.push(output.to_owned());
    v
}

/// The fixed name of the temporary binary for this mode and platform.
pub fn temp_binary_name(mode: RunMode, windows: bool) -> (r: String)
    ensures
        mode == RunMode::Plain && !windows ==> r@ == "temp_exercise"@,
        mode == RunMode::Plain && windows ==> r@ == "temp_exercise.exe"@,
        mode == RunMode::Test && !windows ==> r@ == "temp_test"@,
        mode == RunMode::Test && windows ==> r@ == "temp_test.exe"@,
{
    match mode {
        RunMode::Plain => if windows {
            String::from_str("temp_exercise.exe")
        } else {
            String::from_str("temp_exercise")
        },
        RunMode::Test => if windows {
            String::from_str("temp_test.exe")
        } else {
            String::from_str("temp_test")
        },
    }
}

/// The files to delete after a run whose compile succeeded: the temporary
/// binary, and on the Windows platform also its debug-symbol companion.
/// This cleanup is owed whatever the execution came to.
pub fn cleanup_names(mode: RunMode, windows: bool) -> (r: Vec<String>)
    ensures
        !windows ==> r@.len() == 1,
        windows ==> r@.len() == 2,
        r@[0]@ == temp_name_spec(mode, windows),
        windows ==> r@[1]@ == pdb_name_spec(mode),
{
    let mut v: Vec<String> = Vec::new();
    v.push(temp_binary_name(mode, windows));
    if windows {
        match mode {
            RunMode::Plain => v.push(String::from_str("temp_exercise.pdb")),
            RunMode::Test => v.push(String::from_str("temp_test.pdb")),
        }
    }
    v
}

/// The temporary binary's name.
pub open spec fn temp_name_spec(mode: RunMode, windows: bool) -> Seq<char> {
    match mode {
        RunMode::Plain => if windows {
            "temp_exercise.exe"@
        } else {
            "temp_exercise"@
        },
        RunMode::Test => if windows {
            "temp_test.exe"@
        } else {
            "temp_test"@
        },
    }
}

/// The debug-symbol companion's name on the Windows platform.
pub open spec fn pdb_name_spec(mode: RunMode) -> Seq<char> {
    match mode {
        RunMode::Plain => "temp_exercise.pdb"@,
        RunMode::Test => "temp_test.pdb"@,
    }
}

} // verus!
