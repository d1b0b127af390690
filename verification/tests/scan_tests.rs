use onesource::config::AppConfig;
use onesource::scan::{
    absolute_output_path, build_selection, check_size, draw_tree, escape_path_attribute,
    inspect_content, relative_path, same_file_path, sort_candidates, validate_root, Candidate,
    LinkTarget, ScanError, SkipReason, WalkEntry,
};
use onesource::tree::Node;

fn config(path: &str, output_path: &str) -> AppConfig {
    AppConfig {
        path: path.to_string(),
        output_path: output_path.to_string(),
        no_ignore: false,
        includes: None,
        exclude: None,
        tree_include: None,
        tree_exclude: None,
        no_tree: false,
        tree_no_ignore: false,
        dry_run: false,
        max_size: 500,
        no_blacklist: true,
        copy: false,
    }
}

fn found(path: &str, is_output: bool, is_dir: bool, link: LinkTarget) -> WalkEntry {
    WalkEntry::Found { path: path.to_string(), is_output, is_dir, link }
}

#[test]
fn path_attributes_are_escaped() {
    assert_eq!(escape_path_attribute("a&\"<b>\n.rs"), "a&amp;&quot;&lt;b&gt;\\n.rs");
}

#[test]
fn control_characters_are_escaped_as_code_points() {
    assert_eq!(escape_path_attribute("a\u{1}b\tc\r"), "a\\u{1}b\\tc\\r");
    assert_eq!(escape_path_attribute("x\u{7f}"), "x\\u{7F}");
}

#[test]
fn max_size_is_an_exact_byte_boundary() {
    assert!(check_size(1024, 1).is_none());
    assert!(inspect_content(vec![b'x'; 1024]).is_ok());
    assert!(matches!(
        check_size(1025, 1),
        Some(SkipReason::TooLarge { actual_bytes: 1025, .. })
    ));
}

#[test]
fn nul_after_first_kib_is_binary() {
    let mut bytes = vec![b'x'; 2048];
    bytes[1500] = 0;
    assert!(check_size(2048, 10).is_none());
    assert!(matches!(inspect_content(bytes), Err(SkipReason::Binary)));
}

#[test]
fn invalid_utf8_is_included_lossily() {
    let inspected = inspect_content(vec![0xff, b'a']).unwrap();
    assert!(inspected.lossy_utf8);
    assert!(inspected.content.contains('\u{fffd}'));
    assert_eq!(inspected.content, "\u{fffd}a");
    let clean = inspect_content(b"fine".to_vec()).unwrap();
    assert!(!clean.lossy_utf8);
    assert_eq!(clean.content, "fine");
}

#[test]
fn selection_is_sorted_and_always_excludes_current_output() {
    let root = "/w/selection";
    let output = "/w/selection/result.onesource";
    let walk = || {
        vec![
            found(root, false, true, LinkTarget::NotLink),
            found("/w/selection/z.txt", false, false, LinkTarget::NotLink),
            found(output, true, false, LinkTarget::NotLink),
            found("/w/selection/a.txt", false, false, LinkTarget::NotLink),
        ]
    };
    let (selection, warnings) =
        build_selection(&config(root, output), root, output, &walk(), &walk()).unwrap();
    let selected: Vec<String> =
        selection.candidates.iter().map(|candidate| candidate.rel_path.clone()).collect();
    assert_eq!(selected, vec!["a.txt".to_string(), "z.txt".to_string()]);
    let tree = selection.tree.unwrap();
    assert!(!tree.contains("result.onesource"));
    assert_eq!(tree, "selection/\n├── a.txt\n└── z.txt\n");
    assert!(warnings.is_empty());
    assert_eq!(selection.walk_errors, 0);
    assert_eq!(selection.output_path, output);
}

#[test]
fn selection_does_not_follow_content_symlinks_outside_root() {
    let root = "/w/outside-symlink";
    let output = "/w/outside-symlink/result.onesource";
    let walk = || {
        vec![
            found(root, false, true, LinkTarget::NotLink),
            found(
                "/w/outside-symlink/linked.txt",
                false,
                false,
                LinkTarget::Target("/w/outside-target/secret.txt".to_string()),
            ),
        ]
    };
    let (selection, warnings) =
        build_selection(&config(root, output), root, output, &walk(), &walk()).unwrap();
    assert!(selection.candidates.is_empty());
    assert_eq!(selection.walk_errors, 1);
    assert_eq!(
        warnings,
        vec![
            "[WARNING] Skipping symlink outside scan root: linked.txt -> /w/outside-target/secret.txt"
                .to_string()
        ]
    );
}

#[test]
fn symlinks_inside_the_root_are_candidates() {
    let root = "/w/r";
    let walk = vec![found(
        "/w/r/link.txt",
        false,
        false,
        LinkTarget::Target("/w/r/real.txt".to_string()),
    )];
    let mut args = config(root, "/w/r/o.onesource");
    args.no_tree = true;
    let (selection, _) = build_selection(&args, root, "/w/r/o.onesource", &walk, &vec![]).unwrap();
    assert_eq!(selection.candidates.len(), 1);
    assert_eq!(selection.candidates[0].full_path, "/w/r/link.txt");
    assert!(selection.tree.is_none());
}

#[test]
fn walk_errors_are_counted_with_warnings() {
    let root = "/w/r";
    let content = vec![
        WalkEntry::Failed { error: "permission denied".to_string() },
        found("/w/r/x", false, false, LinkTarget::Unresolved("loop".to_string())),
    ];
    let tree = vec![WalkEntry::Failed { error: "gone".to_string() }];
    let (selection, warnings) =
        build_selection(&config(root, "/w/o"), root, "/w/o", &content, &tree).unwrap();
    assert_eq!(selection.walk_errors, 3);
    assert_eq!(
        warnings,
        vec![
            "[WARNING] Failed while scanning content: permission denied".to_string(),
            "[WARNING] Skipping unreadable symlink x: loop".to_string(),
            "[WARNING] Failed while scanning tree: gone".to_string(),
        ]
    );
    assert_eq!(selection.tree.unwrap(), "r/\n");
}

#[test]
fn selection_filters_apply_to_content_and_tree() {
    let root = "/w/p";
    let walk = || {
        vec![
            found("/w/p/src", false, true, LinkTarget::NotLink),
            found("/w/p/src/main.rs", false, false, LinkTarget::NotLink),
            found("/w/p/Cargo.toml", false, false, LinkTarget::NotLink),
            found("/w/p/.env", false, false, LinkTarget::NotLink),
        ]
    };
    let mut args = config(root, "/w/p/p.onesource");
    args.no_blacklist = false;
    args.includes = Some("**/*.rs".to_string());
    args.tree_include = Some("**/*.rs, *.toml, src".to_string());
    let (selection, _) = build_selection(&args, root, "/w/p/p.onesource", &walk(), &walk()).unwrap();
    let rels: Vec<&str> = selection.candidates.iter().map(|c| c.rel_path.as_str()).collect();
    assert_eq!(rels, vec!["src/main.rs"]);
    assert_eq!(selection.tree.unwrap(), "p/\n├── Cargo.toml\n└── src/\n    └── main.rs\n");
}

#[test]
fn invalid_pattern_fails_the_selection() {
    let mut args = config("/w", "/w/o");
    args.tree_exclude = Some("[".to_string());
    let e = build_selection(&args, "/w", "/w/o", &vec![], &vec![]).err().unwrap();
    assert_eq!(e.message(), "Invalid glob pattern '['");
}

#[test]
fn candidates_sort_by_components() {
    let c = |r: &str| Candidate { full_path: format!("/r/{}", r), rel_path: r.to_string() };
    let sorted = sort_candidates(vec![c("b/a"), c("a.b"), c("a/z"), c("a")]);
    let rels: Vec<&str> = sorted.iter().map(|c| c.rel_path.as_str()).collect();
    assert_eq!(rels, vec!["a", "a/z", "a.b", "b/a"]);
}

#[test]
fn scan_root_checks() {
    assert_eq!(validate_root("p", Ok("/abs/p".to_string()), true).unwrap(), "/abs/p");
    let e = validate_root("p", Ok("/abs/p".to_string()), false).unwrap_err();
    assert_eq!(e, ScanError::NotADirectory { path: "p".to_string() });
    assert_eq!(e.message(), "Scan path must be a directory: p");
    let e = validate_root("q", Err("No such file or directory".to_string()), false).unwrap_err();
    assert_eq!(e.message(), "Failed to resolve scan root: q");
    assert_eq!(
        e,
        ScanError::RootUnresolved {
            path: "q".to_string(),
            error: "No such file or directory".to_string()
        }
    );
}

#[test]
fn output_paths_and_same_file() {
    assert_eq!(absolute_output_path("out.txt", "/home/u"), "/home/u/out.txt");
    assert_eq!(absolute_output_path("/tmp/o", "/home/u"), "/tmp/o");
    assert!(same_file_path("/a/./b", "/a/b", None, None));
    assert!(!same_file_path("/a/b", "/a/c", None, None));
    assert!(same_file_path("/a/l", "/a/c", Some("/x/t".to_string()), Some("/x/t".to_string())));
    assert_eq!(relative_path("/r/a/b.txt", "/r"), "a/b.txt");
    assert_eq!(relative_path("/elsewhere/b.txt", "/r"), "/elsewhere/b.txt");
}

#[test]
fn drawn_tree_names_the_root() {
    let mut n = Node::new(true);
    n.insert_path("b/c.txt", false);
    n.insert_path("a.txt", false);
    assert_eq!(draw_tree("/x/proj", &n), "proj/\n├── a.txt\n└── b/\n    └── c.txt\n");
    assert_eq!(draw_tree("/", &Node::new(true)), "./\n");
}

#[test]
fn escaped_paths_hold_no_delimiters() {
    let escaped = escape_path_attribute("q\"<>\n\r\u{85}&.rs");
    assert!(!escaped.contains('"'));
    assert!(!escaped.contains('<'));
    assert!(!escaped.contains('>'));
    assert!(!escaped.contains('\n'));
    assert!(!escaped.contains('\r'));
    assert_eq!(escaped, "q&quot;&lt;&gt;\\n\\r\\u{85}&amp;.rs");
}

#[test]
fn output_file_is_excluded_even_without_blacklist() {
    let root = "/w/r";
    let output = "/w/r/keep.txt";
    let walk = || vec![found(output, true, false, LinkTarget::NotLink)];
    let mut args = config(root, output);
    args.no_blacklist = true;
    let (selection, _) = build_selection(&args, root, output, &walk(), &walk()).unwrap();
    assert!(selection.candidates.is_empty());
    assert_eq!(selection.tree.unwrap(), "r/\n");
}

#[test]
fn candidates_with_the_same_path_keep_their_order() {
    let c = |full: &str, r: &str| Candidate { full_path: full.to_string(), rel_path: r.to_string() };
    let sorted = sort_candidates(vec![c("/x/2", "b"), c("/x/1", "a"), c("/y/2", "b"), c("/z/2", "./b")]);
    let fulls: Vec<&str> = sorted.iter().map(|c| c.full_path.as_str()).collect();
    assert_eq!(fulls, vec!["/z/2", "/x/1", "/x/2", "/y/2"]);
}
