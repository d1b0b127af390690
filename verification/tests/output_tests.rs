use onesource::config::{Args, ConfigDocument, ProfileConfig};
use onesource::output::{
    render_profile_list, render_profile_show, render_stats, skip_reason_text, process_file,
    FileStats, Tokenizer,
};
use onesource::scan::{InspectedFile, SkipReason};

fn tokens(tok: &Tokenizer, text: &str) -> usize {
    let mut stats = FileStats::new(0);
    assert!(stats.count_output(tok, text));
    stats.estimated_output_tokens
}

#[test]
fn tokenizer_counts_cl100k_tokens() {
    let tok = Tokenizer::load().unwrap();
    assert_eq!(tokens(&tok, "hello world"), 2);
    assert_eq!(tokens(&tok, ""), 0);
    assert_eq!(tokens(&tok, "<|endoftext|>"), 1);
}

#[test]
fn counting_output_adds_up() {
    let tok = Tokenizer::load().unwrap();
    let mut stats = FileStats::new(3);
    assert!(stats.count_output(&tok, "hello world"));
    assert!(stats.count_output(&tok, "hello world"));
    assert_eq!(stats, FileStats { file_count: 0, skipped_count: 3, estimated_output_tokens: 4 });
}

#[test]
fn attached_file_is_framed_and_counted() {
    let tok = Tokenizer::load().unwrap();
    let mut stats = FileStats::new(0);
    let inspected = Ok(InspectedFile { content: "hello world".to_string(), lossy_utf8: true });
    let out = process_file(&mut stats, &tok, "a&b.rs", &inspected, true).unwrap();
    assert_eq!(
        out.pieces,
        vec![
            "<file path=\"a&amp;b.rs\">\n".to_string(),
            "hello world".to_string(),
            "\n</file>\n\n".to_string()
        ]
    );
    assert_eq!(out.line.as_deref(), Some("[EXPECT] a&b.rs (2 content tokens, lossy UTF-8)"));
    assert_eq!(
        out.warning.as_deref(),
        Some("[WARNING] a&b.rs is not valid UTF-8; replacement characters were used")
    );
    let expected: usize =
        out.pieces.iter().map(|p| tokens(&tok, p)).sum();
    assert_eq!(stats.file_count, 1);
    assert_eq!(stats.estimated_output_tokens, expected);

    let clean = Ok(InspectedFile { content: "x".to_string(), lossy_utf8: false });
    let out = process_file(&mut stats, &tok, "x.rs", &clean, false).unwrap();
    assert_eq!(out.line.as_deref(), Some("  + x.rs (1 content tokens)"));
    assert!(out.warning.is_none());
    assert_eq!(stats.file_count, 2);
}

#[test]
fn skipped_file_is_counted_and_reported() {
    let tok = Tokenizer::load().unwrap();
    let mut stats = FileStats::new(1);
    let unreadable = Err(SkipReason::Unreadable("read: denied".to_string()));
    let out = process_file(&mut stats, &tok, "s.txt", &unreadable, true).unwrap();
    assert!(out.pieces.is_empty());
    assert_eq!(out.line.as_deref(), Some("[SKIP] s.txt (unreadable: read: denied)"));
    assert_eq!(out.warning.as_deref(), Some("[WARNING] Skipping s.txt: unreadable: read: denied"));
    let big = Err(SkipReason::TooLarge { max_kib: 1, actual_bytes: 2048 });
    let out = process_file(&mut stats, &tok, "big.bin", &big, false).unwrap();
    assert!(out.line.is_none());
    assert!(out.warning.is_none());
    assert_eq!(stats, FileStats { file_count: 0, skipped_count: 3, estimated_output_tokens: 0 });
}

#[test]
fn skip_reasons_in_words() {
    assert_eq!(
        skip_reason_text(&SkipReason::TooLarge { max_kib: 500, actual_bytes: 600000 }),
        "larger than 500 KiB: 600000 bytes"
    );
    assert_eq!(skip_reason_text(&SkipReason::Binary), "binary file");
    assert_eq!(skip_reason_text(&SkipReason::Unreadable("x".to_string())), "unreadable: x");
}

#[test]
fn stats_summary() {
    let stats = FileStats { file_count: 2, skipped_count: 1, estimated_output_tokens: 345 };
    assert_eq!(
        render_stats(&stats),
        "======File processing completed======\nFiles Processed: 2\nFiles Skipped: 1\nEstimated Output Tokens: 345\n"
    );
}

#[test]
fn profile_show_lists_every_setting() {
    let p = ProfileConfig {
        description: Some("Backend".to_string()),
        includes: Some("src/**".to_string()),
        max_size: Some(42),
        no_tree: Some(false),
        ..ProfileConfig::default()
    };
    assert_eq!(
        render_profile_show("api", &p),
        "Profile: api\nDescription: Backend\n\nContent\n  output-path     (unset)\n  include         src/**\n  exclude         (unset)\n  max-size        42\n\nTree\n  tree-include    (unset)\n  tree-exclude    (unset)\n  no-tree         false\n  tree-no-ignore  (unset)\n\nBehavior\n  no-ignore       (unset)\n  no-blacklist    (unset)\n"
    );
}

#[test]
fn profile_list_pads_names() {
    let mut doc = ConfigDocument::new();
    Args::create_profile(
        &mut doc,
        "web",
        ProfileConfig { description: Some("Frontend".to_string()), ..ProfileConfig::default() },
    )
    .unwrap();
    Args::create_profile(&mut doc, "a-very-long-profile-name", ProfileConfig::default()).unwrap();
    let text = render_profile_list(".onesourcerc", &Args::sorted_profiles(&doc));
    assert_eq!(
        text,
        format!(
            "Available profiles in .onesourcerc:\n  - {:<15} : {}\n  - {:<15} : {}\n",
            "a-very-long-profile-name", "No description", "web", "Frontend"
        )
    );
}
