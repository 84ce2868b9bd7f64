use learning_runner::codec::{load_from_text, parse_state, render_state};
use learning_runner::progress::{ExerciseProgress, ExerciseStatus, LearningState, StoreError};

fn sample_state() -> LearningState {
    LearningState {
        user: "Student".to_string(),
        current_module: "01_variables".to_string(),
        current_exercise: "variables1".to_string(),
        exercises: vec![
            (
                "variables1".to_string(),
                ExerciseProgress {
                    status: ExerciseStatus::Completed,
                    attempts: 3,
                    started_at: Some(100),
                    completed_at: Some(200),
                },
            ),
            (
                "variables2".to_string(),
                ExerciseProgress {
                    status: ExerciseStatus::Pending,
                    attempts: 1,
                    started_at: Some(150),
                    completed_at: None,
                },
            ),
            (
                "arrays1".to_string(),
                ExerciseProgress {
                    status: ExerciseStatus::Locked,
                    attempts: 0,
                    started_at: None,
                    completed_at: None,
                },
            ),
        ],
        last_session: Some(12345),
    }
}

fn assert_states_equal(a: &LearningState, b: &LearningState) {
    assert_eq!(a.user, b.user);
    assert_eq!(a.current_module, b.current_module);
    assert_eq!(a.current_exercise, b.current_exercise);
    assert_eq!(a.last_session, b.last_session);
    assert_eq!(a.exercises.len(), b.exercises.len());
    for (ea, eb) in a.exercises.iter().zip(b.exercises.iter()) {
        assert_eq!(ea.0, eb.0);
        assert_eq!(ea.1, eb.1);
    }
}

#[test]
fn round_trip_recovers_every_field() {
    let state = sample_state();
    let text = render_state(&state);
    let back = parse_state(&text).expect("a just-saved record must load");
    assert_states_equal(&state, &back);
}

#[test]
fn round_trip_of_the_default_record() {
    let state = LearningState::default(777);
    let text = render_state(&state);
    let back = parse_state(&text).expect("a just-saved record must load");
    assert_states_equal(&state, &back);
}

#[test]
fn saving_is_stable_across_a_round_trip() {
    let state = sample_state();
    let text = render_state(&state);
    let back = parse_state(&text).unwrap();
    assert_eq!(render_state(&back), text);
}

#[test]
fn rendered_text_is_the_documented_json_shape() {
    let state = LearningState {
        user: "Student".to_string(),
        current_module: "01_variables".to_string(),
        current_exercise: "variables1".to_string(),
        exercises: vec![(
            "intro".to_string(),
            ExerciseProgress {
                status: ExerciseStatus::Completed,
                attempts: 1,
                started_at: Some(5),
                completed_at: None,
            },
        )],
        last_session: Some(9),
    };
    let expected = "{\n  \"user\": \"Student\",\n  \"current_module\": \"01_variables\",\n  \"current_exercise\": \"variables1\",\n  \"exercises\": {\n    \"intro\": {\n      \"status\": \"Completed\",\n      \"attempts\": 1,\n      \"started_at\": 5,\n      \"completed_at\": null\n    }\n  },\n  \"last_session\": 9\n}";
    assert_eq!(render_state(&state), expected);
}

#[test]
fn empty_exercise_map_renders_as_empty_object() {
    let state = LearningState::default(9);
    let text = render_state(&state);
    assert!(text.contains("\"exercises\": {},"));
}

#[test]
fn missing_file_yields_the_default_record() {
    let loaded = load_from_text(None, 42).expect("a missing file is not an error");
    assert_eq!(loaded.user, "Student");
    assert_eq!(loaded.current_module, "01_variables");
    assert_eq!(loaded.current_exercise, "variables1");
    assert!(loaded.exercises.is_empty());
    assert_eq!(loaded.last_session, Some(42));
}

#[test]
fn corrupt_file_is_a_hard_error() {
    let corrupt = "{ \"user\": oops";
    assert!(matches!(load_from_text(Some(corrupt), 0), Err(StoreError::Corrupt)));
    assert!(matches!(parse_state("not json at all"), Err(StoreError::Corrupt)));
    assert!(matches!(parse_state(""), Err(StoreError::Corrupt)));
}

#[test]
fn trailing_garbage_is_corrupt() {
    let state = LearningState::default(1);
    let mut text = render_state(&state);
    text.push('x');
    assert!(matches!(parse_state(&text), Err(StoreError::Corrupt)));
}

#[test]
fn truncated_record_is_corrupt() {
    let state = sample_state();
    let text = render_state(&state);
    let truncated = &text[..text.len() - 2];
    assert!(matches!(parse_state(truncated), Err(StoreError::Corrupt)));
}

#[test]
fn oversized_numbers_are_corrupt() {
    let text = render_state(&LearningState::default(3)).replace(
        "\"last_session\": 3",
        "\"last_session\": 99999999999999999999999999",
    );
    assert!(matches!(parse_state(&text), Err(StoreError::Corrupt)));
}

#[test]
fn mark_completed_inserts_a_fresh_entry_with_one_attempt() {
    let mut state = LearningState::default(10);
    state.mark_completed("variables1", 50);
    assert_eq!(state.exercises.len(), 1);
    let (name, p) = &state.exercises[0];
    assert_eq!(name, "variables1");
    assert_eq!(p.status, ExerciseStatus::Completed);
    assert_eq!(p.attempts, 1);
    assert_eq!(p.started_at, Some(50));
    assert_eq!(p.completed_at, Some(50));
}

#[test]
fn mark_completed_updates_in_place_and_keeps_attempts() {
    let mut state = sample_state();
    state.mark_completed("variables2", 500);
    assert_eq!(state.exercises.len(), 3);
    let (name, p) = &state.exercises[1];
    assert_eq!(name, "variables2");
    assert_eq!(p.status, ExerciseStatus::Completed);
    assert_eq!(p.attempts, 1);
    assert_eq!(p.started_at, Some(150));
    assert_eq!(p.completed_at, Some(500));
}

#[test]
fn mark_completed_is_idempotent_on_status_and_attempts() {
    let mut state = sample_state();
    state.mark_completed("variables1", 300);
    let attempts_after_first = state.exercises[0].1.attempts;
    state.mark_completed("variables1", 400);
    let (name, p) = &state.exercises[0];
    assert_eq!(name, "variables1");
    assert_eq!(p.status, ExerciseStatus::Completed);
    assert_eq!(p.attempts, attempts_after_first);
    assert_eq!(p.attempts, 3);
    assert_eq!(p.completed_at, Some(400));
    assert_eq!(state.exercises.len(), 3);
}

#[test]
fn marked_record_still_round_trips() {
    let mut state = sample_state();
    state.mark_completed("arrays1", 999);
    state.mark_completed("brand_new", 1000);
    let text = render_state(&state);
    let back = parse_state(&text).unwrap();
    assert_states_equal(&state, &back);
}

#[test]
fn names_beyond_ascii_are_kept_and_round_trip() {
    let mut state = LearningState::default(10);
    state.user = "José".to_string();
    state.mark_completed("übung1", 50);
    assert_eq!(state.exercises[0].0, "übung1");
    let text = render_state(&state);
    let back = parse_state(&text).unwrap();
    assert_states_equal(&state, &back);
}

#[test]
fn names_with_quotes_escapes_and_controls_round_trip() {
    let mut state = LearningState::default(10);
    state.user = "A \"quoted\" name".to_string();
    state.current_module = "back\\slash".to_string();
    state.current_exercise = "line\nbreak".to_string();
    state.mark_completed("tab\there", 50);
    let text = render_state(&state);
    let back = parse_state(&text).unwrap();
    assert_states_equal(&state, &back);
}

#[test]
fn special_characters_are_written_as_json_escapes() {
    let mut state = LearningState::default(1);
    state.user = "a\"b\\c\nd\u{1f}e".to_string();
    let text = render_state(&state);
    assert!(text.contains("\"user\": \"a\\\"b\\\\c\\u000ad\\u001fe\","));
}

#[test]
fn a_stray_escape_is_corrupt() {
    let state = LearningState::default(1);
    let text = render_state(&state).replace("Student", "Stu\\dent");
    assert!(matches!(parse_state(&text), Err(StoreError::Corrupt)));
}

#[test]
fn an_unescaped_quote_cuts_the_value_and_is_corrupt() {
    let state = LearningState::default(1);
    let text = render_state(&state).replace("Student", "Stu\"dent");
    assert!(matches!(parse_state(&text), Err(StoreError::Corrupt)));
}

#[test]
fn current_timestamp_is_never_negative() {
    assert!(learning_runner::clock::current_timestamp() >= 0);
}
