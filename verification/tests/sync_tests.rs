use learning_runner::sync::{clean_module_name, module_manifest, root_manifest, sort_names};

#[test]
fn numeric_prefixes_are_stripped_from_module_names() {
    assert_eq!(clean_module_name("01_basics"), "basics");
    assert_eq!(clean_module_name("02_advanced"), "advanced");
    assert_eq!(clean_module_name("extra"), "extra");
    assert_eq!(clean_module_name("20_projects"), "projects");
    assert_eq!(clean_module_name("a_b"), "a_b");
    assert_eq!(clean_module_name("1_2_3"), "2_3");
}

#[test]
fn root_manifest_redirects_only_renamed_modules() {
    let modules: Vec<(String, String)> = vec![
        ("basics".to_string(), "01_basics".to_string()),
        ("advanced".to_string(), "02_advanced".to_string()),
        ("extra".to_string(), "extra".to_string()),
    ];
    let text = root_manifest(modules);
    let redirect = |raw: &str| format!("{}{}{}{}", "#[", "path = \"", raw, "/mod.rs\"]\n");
    let expected = format!(
        "// Auto-generated by `cargo run -- sync`. Do not edit manually.\n\n{}pub mod advanced;\n\n{}pub mod basics;\n\npub mod extra;\n\n",
        redirect("02_advanced"),
        redirect("01_basics"),
    );
    assert_eq!(text, expected);
}

#[test]
fn per_directory_manifest_is_sorted_and_skips_its_own_name() {
    let stems: Vec<String> = vec!["b".to_string(), "a".to_string(), "mod".to_string()];
    let text = module_manifest(&stems);
    let expected = "// Auto-generated by `cargo run -- sync`\n\npub mod a;\npub mod b;\n";
    assert_eq!(text, expected);
}

#[test]
fn per_directory_manifest_of_no_files_is_just_the_header() {
    let stems: Vec<String> = vec!["mod".to_string()];
    assert_eq!(module_manifest(&stems), "// Auto-generated by `cargo run -- sync`\n\n");
}

#[test]
fn sorting_orders_names_and_keeps_duplicates() {
    let names: Vec<String> = vec![
        "tuples1".to_string(),
        "arrays1".to_string(),
        "tuples1".to_string(),
        "booleans2".to_string(),
    ];
    let sorted = sort_names(names);
    assert_eq!(
        sorted,
        vec![
            "arrays1".to_string(),
            "booleans2".to_string(),
            "tuples1".to_string(),
            "tuples1".to_string(),
        ]
    );
}

#[test]
fn root_manifest_orders_by_clean_name() {
    let modules: Vec<(String, String)> = vec![
        ("zeta".to_string(), "zeta".to_string()),
        ("alpha".to_string(), "09_alpha".to_string()),
    ];
    let text = root_manifest(modules);
    let alpha_at = text.find("pub mod alpha;").unwrap();
    let zeta_at = text.find("pub mod zeta;").unwrap();
    assert!(alpha_at < zeta_at);
}
