use onesource::config::AppConfig;
use onesource::explain::{
    decision_text,
    explain_paths, explain_step, render_report, render_reports, ExplainDecision, ExplainReport,
    ExplainSection, ExplainStep, Inspection, PathFacts, PathsStep, Probe,
};
use onesource::scan::{check_size, inspect_content};

/// A small file system: files with their bytes, directories, links with
/// their targets, the paths the ignore filters hide, and the output file.
struct World {
    files: Vec<(&'static str, Vec<u8>)>,
    dirs: Vec<&'static str>,
    links: Vec<(&'static str, &'static str)>,
    ignored: Vec<&'static str>,
    output: &'static str,
}

impl World {
    fn resolve(&self, p: &str) -> String {
        for (l, t) in &self.links {
            if *l == p {
                return t.to_string();
            }
        }
        p.to_string()
    }

    fn is_present(&self, p: &str) -> bool {
        let r = self.resolve(p);
        self.files.iter().any(|(f, _)| *f == r) || self.dirs.iter().any(|d| *d == r)
    }

    fn answer(&self, facts: &mut PathFacts, probe: &Probe, max_kib: usize) {
        match probe {
            Probe::Exists(p) => facts.exists = Some(self.is_present(p)),
            Probe::Canonicalize(p) => facts.canonical = Some(self.resolve(p)),
            Probe::SameAsOutput(p) => {
                facts.is_output = Some(*p == self.output || self.resolve(p) == self.output)
            }
            Probe::IsSymlink(p) => facts.is_symlink = Some(self.links.iter().any(|(l, _)| l == p)),
            Probe::Ignored(p) => facts.ignored = Some(self.ignored.iter().any(|i| i == p)),
            Probe::IsFile(p) => {
                let r = self.resolve(p);
                facts.is_file = Some(self.files.iter().any(|(f, _)| *f == r))
            }
            Probe::Inspect(p) => {
                let r = self.resolve(p);
                let bytes = self.files.iter().find(|(f, _)| *f == r).unwrap().1.clone();
                facts.inspection = Some(match check_size(bytes.len() as u64, max_kib) {
                    Some(reason) => Inspection::Skipped(reason),
                    None => match inspect_content(bytes) {
                        Ok(f) => Inspection::Attached { lossy: f.lossy_utf8 },
                        Err(reason) => Inspection::Skipped(reason),
                    },
                })
            }
        }
    }

    fn explain(&self, args: &AppConfig, input: &str) -> ExplainReport {
        let mut facts = PathFacts::new(args.path.clone());
        for _ in 0..20 {
            match explain_step(args, input, &facts).unwrap() {
                ExplainStep::Done(report) => return report,
                ExplainStep::Ask(probe) => self.answer(&mut facts, &probe, args.max_size),
            }
        }
        panic!("explaining did not settle");
    }
}

fn world() -> World {
    World {
        files: vec![],
        dirs: vec!["/w"],
        links: vec![],
        ignored: vec![],
        output: "/w/out.onesource",
    }
}

fn config() -> AppConfig {
    AppConfig {
        path: "/w".to_string(),
        output_path: "/w/out.onesource".to_string(),
        no_ignore: false,
        includes: None,
        exclude: None,
        tree_include: None,
        tree_exclude: None,
        no_tree: false,
        tree_no_ignore: false,
        dry_run: false,
        max_size: 500,
        no_blacklist: false,
        copy: false,
    }
}

fn content_decision(report: &ExplainReport) -> &ExplainDecision {
    &report.content.as_ref().unwrap().decision
}

fn tree_decision(report: &ExplainReport) -> &ExplainDecision {
    &report.tree.as_ref().unwrap().decision
}

#[test]
fn explains_blacklist_and_no_blacklist() {
    let mut w = world();
    w.files.push(("/w/.env", b"SECRET=1".to_vec()));

    let blocked = w.explain(&config(), ".env");
    assert_eq!(
        content_decision(&blocked),
        &ExplainDecision::BlockedByBlacklist { rule: ".env".to_string() }
    );

    let mut args = config();
    args.no_blacklist = true;
    let included = w.explain(&args, ".env");
    assert_eq!(content_decision(&included), &ExplainDecision::Included);
}

#[test]
fn exclude_wins_over_include() {
    let mut w = world();
    w.files.push(("/w/main.rs", b"fn main() {}".to_vec()));
    let mut args = config();
    args.includes = Some("*.rs".to_string());
    args.exclude = Some("main.rs".to_string());

    let report = w.explain(&args, "main.rs");
    assert_eq!(
        content_decision(&report),
        &ExplainDecision::BlockedByExclude { rule: "main.rs".to_string() }
    );
}

#[test]
fn explains_content_and_tree_difference() {
    let mut w = world();
    w.files.push(("/w/Cargo.toml", b"[package]\nname = \"demo\"".to_vec()));
    let mut args = config();
    args.includes = Some("*.rs".to_string());
    args.tree_include = Some("*.toml".to_string());

    let report = w.explain(&args, "Cargo.toml");
    assert_eq!(
        content_decision(&report),
        &ExplainDecision::NotIncludedByInclude { rule: "*.rs".to_string() }
    );
    assert_eq!(tree_decision(&report), &ExplainDecision::Included);
}

#[test]
fn explains_not_found_and_no_tree() {
    let mut w = world();
    let missing = w.explain(&config(), "missing.rs");
    assert_eq!(content_decision(&missing), &ExplainDecision::NotFound);
    assert!(missing.tree.is_none());

    w.files.push(("/w/main.rs", b"fn main() {}".to_vec()));
    let mut args = config();
    args.no_tree = true;
    let report = w.explain(&args, "main.rs");
    assert_eq!(tree_decision(&report), &ExplainDecision::DisabledByNoTree);
}

#[test]
fn explains_gitignore_blocks() {
    let mut w = world();
    w.files.push(("/w/.gitignore", b"ignored.txt\n".to_vec()));
    w.files.push(("/w/ignored.txt", b"ignore me".to_vec()));
    w.ignored.push("/w/ignored.txt");

    let mut ignored_args = config();
    ignored_args.includes = Some("*.rs".to_string());
    let report = w.explain(&ignored_args, "ignored.txt");
    assert_eq!(content_decision(&report), &ExplainDecision::BlockedByIgnore);

    let mut args = config();
    args.no_ignore = true;
    let included = w.explain(&args, "ignored.txt");
    assert_eq!(content_decision(&included), &ExplainDecision::Included);
}

#[test]
fn explains_directories_outside_paths_and_current_output() {
    let mut w = world();
    w.dirs.push("/w/nested");
    w.files.push(("/w/out.onesource", b"old output".to_vec()));
    w.dirs.push("/outside-root");
    w.files.push(("/outside-root/outside.txt", b"outside".to_vec()));
    let args = config();

    let directory = w.explain(&args, "nested");
    assert_eq!(content_decision(&directory), &ExplainDecision::NotContentFile);
    assert_eq!(tree_decision(&directory), &ExplainDecision::Included);

    let current_output = w.explain(&args, "out.onesource");
    assert_eq!(content_decision(&current_output), &ExplainDecision::OperationalOutput);

    let outside = w.explain(&args, "/outside-root/outside.txt");
    assert_eq!(content_decision(&outside), &ExplainDecision::OutsideRoot);
    assert_eq!(tree_decision(&outside), &ExplainDecision::OutsideRoot);
}

#[test]
fn explains_lossy_utf8_and_exact_size_limit() {
    let mut w = world();
    w.files.push(("/w/legacy.txt", vec![0xff, b'a']));
    w.files.push(("/w/over.txt", vec![b'x'; 1025]));
    let mut args = config();
    args.max_size = 1;

    let lossy = w.explain(&args, "legacy.txt");
    assert_eq!(content_decision(&lossy), &ExplainDecision::IncludedWithLossyUtf8);
    let over = w.explain(&args, "over.txt");
    assert_eq!(
        content_decision(&over),
        &ExplainDecision::SkippedByMaxSize { max_kib: 1, actual_bytes: 1025 }
    );
}

#[test]
fn explains_outside_symlink_as_content_only_block() {
    let mut w = world();
    w.dirs.push("/symlink-outside");
    w.files.push(("/symlink-outside/secret.txt", b"secret".to_vec()));
    w.links.push(("/w/linked.txt", "/symlink-outside/secret.txt"));

    let report = w.explain(&config(), "linked.txt");
    assert_eq!(content_decision(&report), &ExplainDecision::OutsideRoot);
    assert_eq!(tree_decision(&report), &ExplainDecision::Included);
}

#[test]
fn a_step_asks_for_one_fact_at_a_time() {
    let args = config();
    let facts = PathFacts::new("/w".to_string());
    assert_eq!(
        explain_step(&args, "a.rs", &facts).unwrap(),
        ExplainStep::Ask(Probe::Exists("/w/a.rs".to_string()))
    );
    let mut facts = PathFacts::new("/w".to_string());
    facts.exists = Some(true);
    assert_eq!(
        explain_step(&args, "/abs/a.rs", &facts).unwrap(),
        ExplainStep::Ask(Probe::Canonicalize("/abs/a.rs".to_string()))
    );
}

#[test]
fn invalid_pattern_fails_the_explanation() {
    let mut args = config();
    args.exclude = Some("[".to_string());
    let mut facts = PathFacts::new("/w".to_string());
    facts.exists = Some(true);
    facts.canonical = Some("/w/a.rs".to_string());
    facts.is_output = Some(false);
    facts.is_symlink = Some(false);
    let e = explain_step(&args, "a.rs", &facts).unwrap_err();
    assert_eq!(e.message(), "Invalid glob pattern '['");
}

#[test]
fn several_paths_stop_at_the_first_unknown_fact() {
    let args = config();
    let mut settled = PathFacts::new("/w".to_string());
    settled.exists = Some(false);
    let paths = vec!["gone.rs".to_string(), "b.rs".to_string()];
    let facts = vec![settled, PathFacts::new("/w".to_string())];
    assert_eq!(
        explain_paths(&args, &paths, &facts).unwrap(),
        PathsStep::Ask(1, Probe::Exists("/w/b.rs".to_string()))
    );
    let mut gone = PathFacts::new("/w".to_string());
    gone.exists = Some(false);
    let mut also_gone = PathFacts::new("/w".to_string());
    also_gone.exists = Some(false);
    match explain_paths(&args, &paths, &vec![gone, also_gone]).unwrap() {
        PathsStep::Done(reports) => {
            assert_eq!(reports.len(), 2);
            assert_eq!(reports[1].path, "b.rs");
            assert_eq!(content_decision(&reports[0]), &ExplainDecision::NotFound);
        }
        other => panic!("unexpected {:?}", other),
    }
}

#[test]
fn reports_render_as_printed() {
    let not_found = ExplainReport {
        path: "missing.rs".to_string(),
        content: Some(ExplainSection { decision: ExplainDecision::NotFound }),
        tree: None,
    };
    let excluded = ExplainReport {
        path: "main.rs".to_string(),
        content: Some(ExplainSection {
            decision: ExplainDecision::SkippedByMaxSize { max_kib: 1, actual_bytes: 1025 },
        }),
        tree: Some(ExplainSection {
            decision: ExplainDecision::BlockedByExclude { rule: "main.rs".to_string() },
        }),
    };
    assert_eq!(
        render_report(&not_found),
        "----------------\nmissing.rs\n----------------\n\nResult  not found\n"
    );
    let both = render_reports(&vec![not_found, excluded]);
    assert_eq!(
        both,
        "----------------\nmissing.rs\n----------------\n\nResult  not found\n\n\
         ----------------\nmain.rs\n----------------\n\n\
         Content\n  Result  skipped by max-size\n  Rule    max-size = 1 KiB, actual = 1025 bytes\n\n\
         Tree\n  Result  blocked by exclude\n  Rule    exclude = main.rs\n"
    );
}

#[test]
fn size_and_binary_content_do_not_hide_the_tree_entry() {
    let mut w = world();
    w.files.push(("/w/big.bin", vec![0u8; 4096]));
    let mut args = config();
    args.max_size = 1;
    let report = w.explain(&args, "big.bin");
    assert_eq!(
        content_decision(&report),
        &ExplainDecision::SkippedByMaxSize { max_kib: 1, actual_bytes: 4096 }
    );
    assert_eq!(tree_decision(&report), &ExplainDecision::Included);
    args.max_size = 500;
    let report = w.explain(&args, "big.bin");
    assert_eq!(content_decision(&report), &ExplainDecision::SkippedBinary);
    assert_eq!(tree_decision(&report), &ExplainDecision::Included);
}

#[test]
fn current_output_is_operational_even_without_blacklist() {
    let mut w = world();
    w.files.push(("/w/out.onesource", b"old".to_vec()));
    let mut args = config();
    args.no_blacklist = true;
    args.includes = Some("*.onesource".to_string());
    let report = w.explain(&args, "out.onesource");
    assert_eq!(content_decision(&report), &ExplainDecision::OperationalOutput);
    assert_eq!(tree_decision(&report), &ExplainDecision::OperationalOutput);
}

#[test]
fn every_kind_of_decision_has_its_own_words() {
    let all = vec![
        ExplainDecision::Included,
        ExplainDecision::IncludedWithLossyUtf8,
        ExplainDecision::NotFound,
        ExplainDecision::OutsideRoot,
        ExplainDecision::OperationalOutput,
        ExplainDecision::NotContentFile,
        ExplainDecision::DisabledByNoTree,
        ExplainDecision::BlockedByBlacklist { rule: "x".to_string() },
        ExplainDecision::BlockedByIgnore,
        ExplainDecision::BlockedByExclude { rule: "x".to_string() },
        ExplainDecision::NotIncludedByInclude { rule: "x".to_string() },
        ExplainDecision::SkippedByMaxSize { max_kib: 1, actual_bytes: 2 },
        ExplainDecision::SkippedBinary,
        ExplainDecision::Unreadable { error: "x".to_string() },
    ];
    for (i, a) in all.iter().enumerate() {
        for (j, b) in all.iter().enumerate() {
            assert_eq!(decision_text(a) == decision_text(b), i == j);
        }
    }
    assert_eq!(decision_text(&ExplainDecision::OutsideRoot), "outside the scan root");
}
