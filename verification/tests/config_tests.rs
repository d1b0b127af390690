use onesource::config::{Args, ConfigDocument, ConfigError, ProfileConfig, SavedProfile};

fn profile(includes: Option<&str>, exclude: Option<&str>) -> ProfileConfig {
    ProfileConfig {
        includes: includes.map(str::to_string),
        exclude: exclude.map(str::to_string),
        ..ProfileConfig::default()
    }
}

fn args() -> Args {
    Args {
        path: None,
        output_path: None,
        no_ignore: None,
        includes: None,
        exclude: None,
        tree_include: None,
        tree_exclude: None,
        no_tree: None,
        tree_no_ignore: None,
        dry_run: false,
        max_size: None,
        show_arg: None,
        save: false,
        replace: false,
        desc: None,
        no_config: false,
        no_blacklist: None,
        copy: false,
        profile: None,
        command: None,
    }
}

#[test]
fn profile_name_validation_rejects_path_like_names() {
    assert!(Args::validate_profile_name("backend.api-1").is_ok());
    assert!(Args::validate_profile_name("backend/api").is_err());
    assert!(Args::validate_profile_name("backend api").is_err());
    assert!(Args::validate_profile_name("").is_err());
}

#[test]
fn create_profile_fails_when_duplicate() {
    let mut doc = ConfigDocument::new();
    Args::create_profile(&mut doc, "backend", profile(Some("src/backend/**"), None)).unwrap();

    let error = Args::create_profile(&mut doc, "backend", profile(Some("src/frontend/**"), None))
        .unwrap_err();

    assert!(error.message().contains("already exists"));
}

#[test]
fn update_profile_merges_unspecified_fields() {
    let mut doc = ConfigDocument::new();
    Args::create_profile(
        &mut doc,
        "backend",
        ProfileConfig {
            includes: Some("src/backend/**".to_string()),
            max_size: Some(300),
            ..ProfileConfig::default()
        },
    )
    .unwrap();

    Args::update_profile(
        &mut doc,
        "backend",
        ProfileConfig {
            exclude: Some("*.db".to_string()),
            max_size: Some(500),
            ..ProfileConfig::default()
        },
        false,
    )
    .unwrap();

    let backend = doc.get("backend").unwrap();
    assert_eq!(backend.includes.as_deref(), Some("src/backend/**"));
    assert_eq!(backend.exclude.as_deref(), Some("*.db"));
    assert_eq!(backend.max_size, Some(500));
}

#[test]
fn update_profile_replace_removes_unspecified_fields() {
    let mut doc = ConfigDocument::new();
    Args::create_profile(
        &mut doc,
        "backend",
        ProfileConfig {
            includes: Some("src/backend/**".to_string()),
            exclude: Some("*.db".to_string()),
            ..ProfileConfig::default()
        },
    )
    .unwrap();

    Args::update_profile(&mut doc, "backend", profile(Some("*.py"), None), true).unwrap();

    let backend = doc.get("backend").unwrap();
    assert_eq!(backend.includes.as_deref(), Some("*.py"));
    assert_eq!(backend.exclude, None);
}

#[test]
fn delete_and_rename_profile_cover_failure_cases() {
    let mut doc = ConfigDocument::new();
    Args::create_profile(&mut doc, "old", profile(Some("old/**"), None)).unwrap();
    Args::create_profile(&mut doc, "taken", profile(Some("taken/**"), None)).unwrap();

    let error = Args::rename_profile(&mut doc, "old", "taken").unwrap_err();
    assert!(error.message().contains("already exists"));

    Args::rename_profile(&mut doc, "old", "new").unwrap();
    let error = Args::delete_profile(&mut doc, "old").unwrap_err();
    assert!(error.message().contains("not found"));

    Args::delete_profile(&mut doc, "new").unwrap();
    assert!(!doc.contains_key("new"));
}

#[test]
fn invalid_names_are_refused_by_every_profile_operation() {
    let mut doc = ConfigDocument::new();
    let e = Args::create_profile(&mut doc, "a/b", ProfileConfig::default()).unwrap_err();
    assert_eq!(e, ConfigError::InvalidProfileName { name: "a/b".to_string() });
    assert_eq!(
        e.message(),
        "Invalid profile name 'a/b'. Use only letters, numbers, '.', '_' and '-'."
    );
    assert!(Args::upsert_profile(&mut doc, "", ProfileConfig::default(), false).is_err());
    assert!(Args::rename_profile(&mut doc, "x", "y z").is_err());
    assert_eq!(doc.len(), 0);
}

#[test]
fn error_messages_name_the_profile() {
    let e = ConfigError::ProfileNotFound { name: "web".to_string() };
    assert_eq!(e.message(), "Profile 'web' not found in .onesourcerc");
    let e = ConfigError::ProfileExists { name: "web".to_string() };
    assert_eq!(e.message(), "Profile 'web' already exists");
    let e = ConfigError::ConfigMissing { name: "web".to_string() };
    assert_eq!(e.message(), ".onesourcerc not found, but profile 'web' was requested.");
}

#[test]
fn upsert_creates_then_merges_or_replaces() {
    let mut doc = ConfigDocument::new();
    Args::upsert_profile(&mut doc, "default", profile(Some("*.rs"), None), false).unwrap();
    assert_eq!(doc.get("default").unwrap().includes.as_deref(), Some("*.rs"));
    Args::upsert_profile(&mut doc, "default", profile(None, Some("target/**")), false).unwrap();
    let p = doc.get("default").unwrap();
    assert_eq!(p.includes.as_deref(), Some("*.rs"));
    assert_eq!(p.exclude.as_deref(), Some("target/**"));
    Args::upsert_profile(&mut doc, "default", profile(None, Some("x")), true).unwrap();
    let p = doc.get("default").unwrap();
    assert_eq!(p.includes, None);
    assert_eq!(p.exclude.as_deref(), Some("x"));
}

#[test]
fn get_profile_reads_back_what_create_stored() {
    let mut doc = ConfigDocument::new();
    Args::create_profile(&mut doc, "api", profile(Some("api/**"), None)).unwrap();
    let p = Args::get_profile(&doc, "api").unwrap();
    assert_eq!(p.includes.as_deref(), Some("api/**"));
    assert!(Args::get_profile(&doc, "web").is_err());
}

#[test]
fn merge_from_keeps_unset_fields() {
    let mut a = profile(Some("*.rs"), Some("target/**"));
    a.max_size = Some(10);
    a.merge_from(ProfileConfig {
        exclude: Some("*.lock".to_string()),
        no_tree: Some(true),
        ..ProfileConfig::default()
    });
    assert_eq!(a.includes.as_deref(), Some("*.rs"));
    assert_eq!(a.exclude.as_deref(), Some("*.lock"));
    assert_eq!(a.max_size, Some(10));
    assert_eq!(a.no_tree, Some(true));
}

#[test]
fn sorted_profiles_are_in_name_order() {
    let mut doc = ConfigDocument::new();
    for name in ["zeta", "alpha", "mid", "Beta"] {
        Args::create_profile(&mut doc, name, ProfileConfig::default()).unwrap();
    }
    let names: Vec<&str> = Args::sorted_profiles(&doc)
        .into_iter()
        .map(|(n, _)| n.as_str())
        .collect();
    assert_eq!(names, vec!["Beta", "alpha", "mid", "zeta"]);
}

#[test]
fn saved_profile_fills_only_unset_options() {
    let mut doc = ConfigDocument::new();
    Args::create_profile(
        &mut doc,
        "default",
        ProfileConfig {
            includes: Some("*.rs".to_string()),
            exclude: Some("target/**".to_string()),
            max_size: Some(99),
            ..ProfileConfig::default()
        },
    )
    .unwrap();
    let mut a = args();
    a.exclude = Some("docs/**".to_string());
    let r = a.merge_saved_config(Some(&doc)).unwrap();
    assert_eq!(r, SavedProfile::Used { name: "default".to_string() });
    assert_eq!(a.includes.as_deref(), Some("*.rs"));
    assert_eq!(a.exclude.as_deref(), Some("docs/**"));
    assert_eq!(a.max_size, Some(99));
}

#[test]
fn missing_named_profile_is_an_error_but_missing_default_is_not() {
    let doc = ConfigDocument::new();
    let mut a = args();
    assert_eq!(a.merge_saved_config(Some(&doc)).unwrap(), SavedProfile::NoDefaultProfile);
    assert_eq!(a.merge_saved_config(None).unwrap(), SavedProfile::NoConfigFile);
    let mut b = args();
    b.profile = Some("web".to_string());
    assert_eq!(
        b.merge_saved_config(Some(&doc)).unwrap_err(),
        ConfigError::ProfileNotFound { name: "web".to_string() }
    );
    assert_eq!(
        b.merge_saved_config(None).unwrap_err(),
        ConfigError::ConfigMissing { name: "web".to_string() }
    );
    let mut c = args();
    c.no_config = true;
    c.profile = Some("web".to_string());
    assert_eq!(c.merge_saved_config(None).unwrap(), SavedProfile::Skipped);
}

#[test]
fn resolve_fills_defaults() {
    let a = args();
    let c = a.resolve(Some("demo".to_string()));
    assert_eq!(c.path, ".");
    assert_eq!(c.output_path, "demo.onesource");
    assert_eq!(c.max_size, 500);
    assert!(!c.no_ignore && !c.no_tree && !c.tree_no_ignore && !c.no_blacklist);
    let mut b = args();
    b.output_path = Some("out.txt".to_string());
    b.max_size = Some(7);
    b.no_tree = Some(true);
    let c = b.resolve(None);
    assert_eq!(c.output_path, "out.txt");
    assert_eq!(c.max_size, 7);
    assert!(c.no_tree);
    assert_eq!(args().resolve(None).output_path, "project.onesource");
}

#[test]
fn tree_ignore_setting_inherits_no_ignore() {
    let mut a = args();
    a.no_ignore = Some(true);
    let c = a.resolve(None);
    assert!(c.no_ignore);
    assert!(c.tree_no_ignore);
    let mut b = args();
    b.no_ignore = Some(true);
    b.tree_no_ignore = Some(false);
    let c = b.resolve(None);
    assert!(c.no_ignore);
    assert!(!c.tree_no_ignore);
    let mut d = args();
    d.tree_no_ignore = Some(true);
    let c = d.resolve(None);
    assert!(!c.no_ignore);
    assert!(c.tree_no_ignore);
}
