use learning_runner::locator::{find_first_match, get_search_dirs, list_names, path_matches};
use learning_runner::dashboard::{handle_key, next_exercise_name, DashboardCmd, DashboardKey};
use learning_runner::scan::{active_exercise, next_pending};
use learning_runner::runner::{
    after_compile, after_execute, cleanup_names, compiler_args, compiler_name, marker_present,
    marker_report, plan_after_locate, should_mark_completed, temp_binary_name, AfterRun,
    ProcessResult, RunMode, RunReport,
};

fn entries(paths: &[&str]) -> Vec<String> {
    paths.iter().map(|p| p.to_string()).collect()
}

#[test]
fn unresolvable_name_reports_not_found_before_any_process() {
    let roots = entries(&[
        "src/exercises/01_variables/variables1.rs",
        "src/exercises/02_functions/bigger1.rs",
    ]);
    let found = find_first_match(&roots, "no_such_exercise");
    assert!(found.is_none());
    assert!(matches!(plan_after_locate(found), Err(RunReport::NotFound)));
}

#[test]
fn located_name_goes_on_to_compile() {
    let roots = entries(&[
        "src/exercises/01_variables/variables1.rs",
        "src/exercises/02_functions/bigger1.rs",
    ]);
    let found = find_first_match(&roots, "bigger1");
    assert_eq!(found.as_deref(), Some("src/exercises/02_functions/bigger1.rs"));
    assert!(matches!(plan_after_locate(found), Ok(_)));
}

#[test]
fn first_entry_in_traversal_order_wins() {
    let roots = entries(&[
        "src/exercises/01_variables/intro.rs",
        "src/practice/intro.rs",
    ]);
    let found = find_first_match(&roots, "intro");
    assert_eq!(found.as_deref(), Some("src/exercises/01_variables/intro.rs"));
}

#[test]
fn matching_is_exact_and_case_sensitive() {
    assert!(path_matches("src/exercises/a/Intro.rs", "Intro"));
    assert!(!path_matches("src/exercises/a/Intro.rs", "intro"));
    assert!(!path_matches("src/exercises/a/intro.txt", "intro"));
    assert!(!path_matches("src/exercises/a/intro", "intro"));
    assert!(!path_matches("src/exercises/a/.rs", ".rs"));
    assert!(!path_matches("src/exercises/a/intro.rs", "intro.rs"));
}

#[test]
fn listing_keeps_traversal_order_and_duplicates() {
    let roots = entries(&[
        "src/exercises/01_variables",
        "src/exercises/01_variables/b.rs",
        "src/exercises/01_variables/a.rs",
        "src/practice/b.rs",
        "src/practice/notes.txt",
    ]);
    let names = list_names(&roots);
    assert_eq!(names, vec!["b".to_string(), "a".to_string(), "b".to_string()]);
}

#[test]
fn search_roots_are_the_two_fixed_directories() {
    let dirs = get_search_dirs();
    assert_eq!(dirs, vec!["src/exercises".to_string(), "src/practice".to_string()]);
}

#[test]
fn compile_outcomes_are_matched_exhaustively() {
    assert!(after_compile(ProcessResult::Success).is_none());
    assert_eq!(after_compile(ProcessResult::NonZeroExit), Some(RunReport::CompileFailed));
    assert_eq!(after_compile(ProcessResult::SpawnError), Some(RunReport::CompilerUnavailable));
}

#[test]
fn plain_run_checks_marker_whatever_the_exit_status() {
    assert_eq!(after_execute(RunMode::Plain, ProcessResult::Success), AfterRun::CheckMarker);
    assert_eq!(after_execute(RunMode::Plain, ProcessResult::NonZeroExit), AfterRun::CheckMarker);
    assert_eq!(
        after_execute(RunMode::Plain, ProcessResult::SpawnError),
        AfterRun::Report(RunReport::ExecutionFailed)
    );
    assert_eq!(
        marker_report(RunMode::Plain, false),
        RunReport::CompletedClean
    );
    assert_eq!(
        marker_report(RunMode::Plain, true),
        RunReport::CompletedMarkerPresent
    );
}

#[test]
fn test_run_passes_iff_exit_success_and_checks_marker_only_then() {
    assert_eq!(after_execute(RunMode::Test, ProcessResult::Success), AfterRun::CheckMarker);
    assert_eq!(
        after_execute(RunMode::Test, ProcessResult::NonZeroExit),
        AfterRun::Report(RunReport::TestsFailed)
    );
    assert_eq!(
        after_execute(RunMode::Test, ProcessResult::SpawnError),
        AfterRun::Report(RunReport::ExecutionFailed)
    );
    assert_eq!(marker_report(RunMode::Test, false), RunReport::TestsPassedClean);
    assert_eq!(marker_report(RunMode::Test, true), RunReport::TestsPassedMarkerPresent);
}

#[test]
fn marker_detection_reads_the_literal_token() {
    assert!(marker_present("fn main() {}\n// I AM NOT DONE\n"));
    assert!(marker_present("// I AM NOT DONE"));
    assert!(!marker_present("fn main() {}\n// all done\n"));
    assert!(!marker_present(""));
    assert!(!marker_present("// I AM NOT DON"));
}

#[test]
fn only_a_passing_test_build_marks_completion() {
    assert!(should_mark_completed(RunMode::Test, ProcessResult::Success));
    assert!(!should_mark_completed(RunMode::Test, ProcessResult::NonZeroExit));
    assert!(!should_mark_completed(RunMode::Plain, ProcessResult::Success));
    assert!(!should_mark_completed(RunMode::Plain, ProcessResult::NonZeroExit));
}

#[test]
fn backslash_separated_paths_resolve_too() {
    assert!(path_matches("src\\exercises\\01_variables\\intro.rs", "intro"));
    assert!(!path_matches("src\\exercises\\01_variables\\intro.rs", "variables"));
    let roots = entries(&["src\\exercises\\01_variables\\variables1.rs"]);
    let found = find_first_match(&roots, "variables1");
    assert_eq!(found.as_deref(), Some("src\\exercises\\01_variables\\variables1.rs"));
}

#[test]
fn compiler_invocation_has_the_fixed_form() {
    assert_eq!(compiler_name(), "rustc");
    assert_eq!(
        compiler_args(RunMode::Plain, "src/exercises/a/intro.rs", "temp_exercise"),
        vec![
            "src/exercises/a/intro.rs".to_string(),
            "-o".to_string(),
            "temp_exercise".to_string(),
        ]
    );
    assert_eq!(
        compiler_args(RunMode::Test, "src/exercises/a/intro.rs", "temp_test"),
        vec![
            "--test".to_string(),
            "src/exercises/a/intro.rs".to_string(),
            "-o".to_string(),
            "temp_test".to_string(),
        ]
    );
}

#[test]
fn temp_binary_names_are_fixed_per_mode_and_platform() {
    assert_eq!(temp_binary_name(RunMode::Plain, false), "temp_exercise");
    assert_eq!(temp_binary_name(RunMode::Plain, true), "temp_exercise.exe");
    assert_eq!(temp_binary_name(RunMode::Test, false), "temp_test");
    assert_eq!(temp_binary_name(RunMode::Test, true), "temp_test.exe");
}

#[test]
fn cleanup_always_names_the_binary_and_on_windows_the_symbols() {
    assert_eq!(cleanup_names(RunMode::Plain, false), vec!["temp_exercise".to_string()]);
    assert_eq!(
        cleanup_names(RunMode::Test, true),
        vec!["temp_test.exe".to_string(), "temp_test.pdb".to_string()]
    );
    assert_eq!(
        cleanup_names(RunMode::Plain, true),
        vec!["temp_exercise.exe".to_string(), "temp_exercise.pdb".to_string()]
    );
}

#[test]
fn active_session_scan_takes_the_first_name() {
    let text = "# Progress\n\n```json\n{ \"exercise\": \"variables2\" }\n```\n\
                later: \"exercise\": \"other\"\n";
    assert_eq!(active_exercise(text).as_deref(), Some("variables2"));
}

#[test]
fn active_session_null_means_no_exercise() {
    assert_eq!(active_exercise("{ \"exercise\": \"null\" }"), None);
    assert_eq!(active_exercise("{ \"exercise\":\"null\" }, \"exercise\": \"real\""), None);
    assert_eq!(active_exercise("no session fragment here"), None);
    assert_eq!(active_exercise("\"exercise\": \"\""), None);
}

#[test]
fn active_session_allows_whitespace_after_the_key() {
    assert_eq!(active_exercise("\"exercise\":   \t \"arrays1\""), Some("arrays1".to_string()));
}

#[test]
fn active_session_allows_unicode_whitespace_after_the_key() {
    assert_eq!(
        active_exercise("\"exercise\":\u{00A0}\u{2003}\"arrays1\""),
        Some("arrays1".to_string())
    );
}

#[test]
fn checklist_scan_takes_the_first_pending_entry() {
    let text = "- [x] variables1.rs\n- [ ] variables2.rs\n- [ ] variables3.rs\n";
    assert_eq!(next_pending(text).as_deref(), Some("variables2"));
    assert_eq!(next_pending("- [x] done.rs\nnothing else"), None);
    assert_eq!(next_pending("- [ ] not_a_source.txt"), None);
    assert_eq!(next_pending(""), None);
}

#[test]
fn dashboard_keys_map_to_their_commands() {
    assert_eq!(handle_key(DashboardKey::Quit, 7), (DashboardCmd::Quit, 7));
    assert_eq!(handle_key(DashboardKey::RunTest, 7), (DashboardCmd::RunTest, 7));
    assert_eq!(handle_key(DashboardKey::NextExercise, 7), (DashboardCmd::NextExercise, 7));
    assert_eq!(handle_key(DashboardKey::ScrollDown, 7), (DashboardCmd::Redraw, 8));
    assert_eq!(handle_key(DashboardKey::ScrollDown, 1000), (DashboardCmd::Redraw, 1000));
    assert_eq!(handle_key(DashboardKey::ScrollUp, 7), (DashboardCmd::Redraw, 6));
    assert_eq!(handle_key(DashboardKey::ScrollUp, 0), (DashboardCmd::Redraw, 0));
    assert_eq!(handle_key(DashboardKey::Other, 7), (DashboardCmd::Redraw, 7));
}

#[test]
fn next_exercise_name_increments_the_numeric_suffix() {
    assert_eq!(next_exercise_name("variables1").as_deref(), Some("variables2"));
    assert_eq!(next_exercise_name("variables9").as_deref(), Some("variables10"));
    assert_eq!(next_exercise_name("arrays09").as_deref(), Some("arrays10"));
    assert_eq!(next_exercise_name("no_digits_here"), None);
    assert_eq!(next_exercise_name("mixed1suffix"), None);
    assert_eq!(next_exercise_name(""), None);
}
