use onesource::filter::{blacklist_rule_of, FileFilter, FilterDecision, FilterError};

#[test]
fn invalid_glob_is_a_user_error_instead_of_a_panic() {
    let error = FileFilter::new(Some("["), None, false).err().unwrap();
    assert!(error.message().contains("Invalid glob pattern '['"));
}

#[test]
fn sensitive_patterns_are_case_insensitive() {
    let filter = FileFilter::new(None, None, false).unwrap();
    assert!(matches!(
        filter.explain("config/.ENV.PRODUCTION"),
        FilterDecision::BlockedByBlacklist { .. }
    ));
    assert!(matches!(
        filter.explain("keys/DEPLOY.PEM"),
        FilterDecision::BlockedByBlacklist { .. }
    ));
    assert!(matches!(
        filter.explain(".onesource-tmp-123"),
        FilterDecision::BlockedByBlacklist { .. }
    ));
}

#[test]
fn no_blacklist_disables_sensitive_patterns() {
    let filter = FileFilter::new(None, None, true).unwrap();
    assert_eq!(filter.explain("context.onesource"), FilterDecision::Included);
}

#[test]
fn exclude_wins_over_include_in_the_filter() {
    let filter = FileFilter::new(Some("*.rs"), Some("main.rs"), false).unwrap();
    assert_eq!(
        filter.explain("main.rs"),
        FilterDecision::BlockedByExclude { rule: "main.rs".to_string() }
    );
    assert_eq!(filter.explain("lib.rs"), FilterDecision::Included);
    assert_eq!(
        filter.explain("README.md"),
        FilterDecision::NotIncludedByInclude { rule: "*.rs".to_string() }
    );
}

#[test]
fn blacklist_decides_before_the_patterns() {
    let filter = FileFilter::new(Some(".env"), None, false).unwrap();
    assert_eq!(
        filter.explain(".env"),
        FilterDecision::BlockedByBlacklist { rule: ".env".to_string() }
    );
    assert!(!filter.is_match(".env"));
}

#[test]
fn blacklisted_components_block_whole_subtrees() {
    assert_eq!(blacklist_rule_of("a/.git/config"), Some(".git".to_string()));
    assert_eq!(blacklist_rule_of("web/node_modules/x.js"), Some("node_modules".to_string()));
    assert_eq!(blacklist_rule_of("src/main.rs"), None);
}

#[test]
fn pattern_lists_are_comma_separated_and_trimmed() {
    let filter = FileFilter::new(Some(" *.rs , *.toml ,"), None, true).unwrap();
    assert!(filter.is_match("Cargo.toml"));
    assert!(filter.is_match("src/lib.rs"));
    assert!(!filter.is_match("notes.md"));
}

#[test]
fn blank_pattern_list_is_no_patterns() {
    let filter = FileFilter::new(Some(" , "), None, true).unwrap();
    assert!(filter.is_match("anything.bin"));
}

#[test]
fn second_invalid_pattern_is_reported() {
    let e = FileFilter::new(Some("*.rs"), Some("ok, a{b"), false).err().unwrap();
    assert_eq!(e, FilterError::InvalidGlob { pattern: "a{b".to_string() });
}

#[test]
fn deeply_nested_glob_is_an_error_not_a_panic() {
    let pattern = format!("{}a{}", "{".repeat(300), "}".repeat(300));
    let error = FileFilter::new(Some(&pattern), None, true).err().unwrap();
    assert_eq!(error, FilterError::InvalidGlob { pattern: pattern.clone() });
    let ok = FileFilter::new(Some("{{a}}"), None, true).unwrap();
    assert!(ok.is_match("a"));
    assert!(!ok.is_match("b"));
}
