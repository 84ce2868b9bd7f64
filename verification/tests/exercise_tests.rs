use learning_runner::exercises::{grep_lines, Config};
use learning_runner::exercises::{
    arrays1_main, arrays3_main, bigger, booleans2_main, casting2_main, constants2_main,
    enums2_main, errors2_main, functions5_main, functions7_main, integers1_main, integers2_main,
    iterators1_main, lifetimes1_main, match6_main, methods1_main, ownership1_main,
    ownership2_main, ownership_quiz1_main, practice, slices1_main, tuples2_main, variables1_main,
    variables2_main, variables3_main, variables5_main, NUMBER,
};

#[test]
fn arrays1_test_main_runs() {
    arrays1_main();
}

#[test]
fn arrays3_test_main_runs() {
    arrays3_main();
}

#[test]
fn booleans2_test_main_runs() {
    booleans2_main();
}

#[test]
fn casting2_test_main_runs() {
    casting2_main();
}

#[test]
fn constants2_test_main_runs() {
    constants2_main();
}

#[test]
fn integers1_test_main_runs() {
    integers1_main();
}

#[test]
fn integers2_test_main_runs() {
    integers2_main();
}

#[test]
fn tuples2_test_main_runs() {
    tuples2_main();
}

#[test]
fn variables1_test_compiles_and_runs() {
    variables1_main();
}

#[test]
fn variables2_test_compiles_and_runs() {
    variables2_main();
}

#[test]
fn variables3_test_main_runs() {
    variables3_main();
    practice();
}

#[test]
fn variables4_test_main_runs() {
    assert_eq!(NUMBER, 3);
}

#[test]
fn variables5_test_main_runs() {
    variables5_main();
}

#[test]
fn ten_is_bigger_than_eight() {
    assert_eq!(10, bigger(10, 8));
}

#[test]
fn fortytwo_is_bigger_than_thirtytwo() {
    assert_eq!(42, bigger(32, 42));
}

#[test]
fn equal_numbers() {
    assert_eq!(42, bigger(42, 42));
}

#[test]
fn negative_numbers() {
    assert_eq!(-1, bigger(-1, -5));
}

#[test]
fn functions5_test_main_runs() {
    functions5_main();
}

#[test]
fn functions7_test_main_runs() {
    functions7_main();
}

#[test]
fn match6_test_main_runs() {
    match6_main();
}

#[test]
fn ownership1_test_main_runs() {
    ownership1_main();
}

#[test]
fn ownership2_test_main_runs() {
    ownership2_main();
}

#[test]
fn ownership_quiz1_test_main_runs() {
    ownership_quiz1_main();
}

#[test]
fn slices1_test_main_runs() {
    slices1_main();
}

#[test]
fn methods1_test_main_runs() {
    methods1_main();
}

#[test]
fn enums2_test_main_runs() {
    enums2_main();
}

#[test]
fn errors2_test_main_runs() {
    errors2_main();
}

#[test]
fn lifetimes1_test_main_runs() {
    lifetimes1_main();
}

#[test]
fn iterators1_test_main_runs() {
    iterators1_main();
}

#[test]
fn exercise_values_are_the_documented_ones() {
    assert_eq!(arrays1_main(), 2);
    assert_eq!(arrays3_main(), "Out of bounds");
    assert!(booleans2_main());
    assert_eq!(casting2_main(), (255u16, 255u8));
    assert_eq!(constants2_main(), 20);
    assert_eq!(integers1_main(), (255u8, -128i8));
    assert_eq!(integers2_main(), 300u16);
    assert_eq!(tuples2_main(), (1, 2, 3));
    assert_eq!(variables1_main(), 6);
    assert_eq!(variables2_main(), 10);
    assert_eq!(variables3_main(), 10);
    assert_eq!(practice(), (10, 5));
    assert_eq!(variables5_main(), 10);
    assert_eq!(functions5_main(), 9);
    assert_eq!(functions7_main(), (true, false));
    assert_eq!(match6_main(), "Big number");
    assert_eq!(ownership1_main(), "hello");
    let (s1, s2) = ownership2_main();
    assert_eq!(s1, "hello");
    assert_eq!(s2, "hello");
    let (a, b, c) = ownership_quiz1_main();
    assert_eq!((a.as_str(), b.as_str(), c.as_str()), ("Rust", "Rust", "Rust"));
    assert_eq!(slices1_main(), ("Hello".to_string(), "World".to_string()));
    assert_eq!(methods1_main(), 1500);
    assert_eq!(enums2_main(), 6);
    assert_eq!(errors2_main(), vec![42i64, 93, 18]);
    assert_eq!(lifetimes1_main(), "long string is long");
    assert_eq!(iterators1_main(), (Some(1), Some(2)));
}

#[test]
fn longest_compares_byte_lengths() {
    assert_eq!(
        learning_runner::exercises::longest("long string is long", "xyz"),
        "long string is long"
    );
    assert_eq!(learning_runner::exercises::longest("ab", "xyz"), "xyz");
    assert_eq!(learning_runner::exercises::longest("xyz", "xyz"), "xyz");
    // Two characters but four bytes beat three characters of three bytes.
    assert_eq!(learning_runner::exercises::longest("éé", "abc"), "éé");
}

#[test]
fn nametag_and_parsing_edges() {
    let text = learning_runner::exercises::generate_nametag_text("Beyoncé".to_string());
    assert_eq!(text, "Hi! My name is Beyoncé");
    assert_eq!(learning_runner::exercises::parse_number("42"), Ok(42));
    assert_eq!(learning_runner::exercises::parse_number("+42"), Ok(42));
    assert_eq!(learning_runner::exercises::parse_number("-7"), Ok(-7));
    assert_eq!(
        learning_runner::exercises::parse_number("+"),
        Err(learning_runner::exercises::ParseError::Invalid)
    );
    assert_eq!(
        learning_runner::exercises::parse_number("-"),
        Err(learning_runner::exercises::ParseError::Invalid)
    );
    assert_eq!(
        learning_runner::exercises::parse_number("+-3"),
        Err(learning_runner::exercises::ParseError::Invalid)
    );
    assert_eq!(learning_runner::exercises::parse_number("+9223372036854775807"), Ok(i64::MAX));
    assert_eq!(learning_runner::exercises::parse_number("9223372036854775807"), Ok(i64::MAX));
    assert_eq!(learning_runner::exercises::parse_number("-9223372036854775808"), Ok(i64::MIN));
    assert_eq!(
        learning_runner::exercises::parse_number("9223372036854775808"),
        Err(learning_runner::exercises::ParseError::Invalid)
    );
    assert_eq!(
        learning_runner::exercises::parse_number("12a"),
        Err(learning_runner::exercises::ParseError::Invalid)
    );
    assert_eq!(
        learning_runner::exercises::parse_number(""),
        Err(learning_runner::exercises::ParseError::Invalid)
    );
}

#[test]
fn config_and_grep() {
    let args: Vec<String> = vec!["prog".into(), "needle".into(), "input.txt".into()];
    let config = Config::new(args).unwrap();
    assert_eq!(config.pattern, "needle");
    assert_eq!(config.filename, "input.txt");
    assert!(matches!(Config::new(vec!["prog".into()]), Err("Didn't get a pattern string")));
    assert!(matches!(
        Config::new(vec!["prog".into(), "needle".into()]),
        Err("Didn't get a file name")
    ));
    let lines: Vec<String> =
        vec!["a needle here".into(), "nothing".into(), "needle again".into()];
    let hits = grep_lines(&lines, "needle");
    assert_eq!(hits, vec!["a needle here".to_string(), "needle again".to_string()]);
}
