//! The generated output: each attached file framed in a block, the token
//! estimate of everything written, and the lines that report on a run.

use vstd::prelude::*;
use crate::config::ProfileConfig;
use crate::scan::{escape_path_attribute, escape_text, opt_text_of, InspectedFile, SkipReason};
use crate::text::{chars_of, decimal, push_char, push_decimal, push_str};

verus! {

// ----------------------------------------------------------------------------
// Token counts (tiktoken-rs)
// ----------------------------------------------------------------------------

/// `tiktoken_rs::CoreBPE`, a tokenizer, held as an opaque value.
#[verifier::external_type_specification]
#[verifier::external_body]
pub struct ExCoreBpe(tiktoken_rs::CoreBPE);

/// The number of `cl100k_base` tokens of a text, special tokens allowed;
/// `None` where the tokenizer reports an error for the text.
pub uninterp spec fn cl100k_tokens(text: Seq<char>) -> Option<usize>;

/// The `cl100k_base` tokenizer.
pub struct Tokenizer {
    bpe: tiktoken_rs::CoreBPE,
}

/// Loads `tiktoken_rs::cl100k_base`; the error is its message. Trusted:
/// loading succeeds, since `cl100k_base` decodes a vocabulary built into
/// the crate and compiles fixed patterns, so it depends on nothing outside
/// the call.
#[verifier::external_body]
fn load_cl100k() -> (r: Result<tiktoken_rs::CoreBPE, String>)
    ensures
        r is Ok,
{
    match tiktoken_rs::cl100k_base() {
        Ok(bpe) => Ok(bpe),
        Err(e) => Err(format!("{}", e)),
    }
}

impl Tokenizer {
    /// Loads the `cl100k_base` tokenizer, which always succeeds.
    pub fn load() -> (r: Result<Tokenizer, String>)
        ensures
            r is Ok,
    {
        match load_cl100k() {
            Ok(bpe) => Ok(Tokenizer { bpe }),
            Err(e) => Err(e),
        }
    }

    /// The number of tokens of `text` with every special token allowed
    /// (`CoreBPE::count` with `CoreBPE::special_tokens`, the count that
    /// `encode_with_special_tokens` gives). Trusted: the result is
    /// `cl100k_tokens` of the text, since a `Tokenizer` only ever holds the
    /// tokenizer that `load_cl100k` gives.
    #[verifier::external_body]
    pub(crate) fn count(&self, text: &str) -> (r: Option<usize>)
        ensures
            r == cl100k_tokens(text@),
    {
        self.bpe.count(text, &self.bpe.special_tokens()).ok()
    }
}

// ----------------------------------------------------------------------------
// Statistics
// ----------------------------------------------------------------------------

/// What a run counted: files attached, files skipped (walk errors
/// included), and the estimated tokens of everything written.
#[derive(Debug, PartialEq, Eq)]
pub struct FileStats {
    pub file_count: usize,
    pub skipped_count: usize,
    pub estimated_output_tokens: usize,
}

impl FileStats {
    /// The statistics at the start of a run: the walk errors count as
    /// skipped.
    pub fn new(walk_errors: usize) -> (r: FileStats)
        ensures
            r == (FileStats { file_count: 0, skipped_count: walk_errors, estimated_output_tokens: 0 }),
    {
        FileStats { file_count: 0, skipped_count: walk_errors, estimated_output_tokens: 0 }
    }

    /// Counts the tokens of `value` as written; `false`,
    /// with nothing counted, where the tokenizer fails on it or the total
    /// would not fit.
    pub fn count_output(&mut self, tok: &Tokenizer, value: &str) -> (ok: bool)
        ensures
            ok == (cl100k_tokens(value@) matches Some(n) && old(self).estimated_output_tokens + n
                <= usize::MAX),
            ok ==> final(self).estimated_output_tokens == old(self).estimated_output_tokens
                + cl100k_tokens(value@)->0,
            !ok ==> final(self).estimated_output_tokens == old(self).estimated_output_tokens,
            final(self).file_count == old(self).file_count,
            final(self).skipped_count == old(self).skipped_count,
    {
        match tok.count(value) {
            None => false,
            Some(n) => match self.estimated_output_tokens.checked_add(n) {
                None => false,
                Some(t) => {
                    self.estimated_output_tokens = t;
                    true
                },
            },
        }
    }
}

// ----------------------------------------------------------------------------
// One file of the output
// ----------------------------------------------------------------------------

/// The line that opens a file's block.
pub open spec fn opening_text(rel: Seq<char>) -> Seq<char> {
    "<file path=\""@ + escape_text(rel) + "\">\n"@
}

/// The text that closes a file's block.
pub open spec fn closing_text() -> Seq<char> {
    "\n</file>\n\n"@
}

/// Why a file was skipped, in words.
pub open spec fn skip_text(r: SkipReason) -> Seq<char> {
    match r {
        SkipReason::TooLarge { max_kib, actual_bytes } => "larger than "@ + decimal(max_kib as nat)
            + " KiB: "@ + decimal(actual_bytes as nat) + " bytes"@,
        SkipReason::Binary => "binary file"@,
        SkipReason::Unreadable(e) => "unreadable: "@ + e@,
    }
}

/// Why a file was skipped, in words.
pub fn skip_reason_text(reason: &SkipReason) -> (r: String)
    ensures
        r@ == skip_text(*reason),
{
    match reason {
        SkipReason::TooLarge { max_kib, actual_bytes } => {
            let mut r = String::from_str("larger than ");
            push_decimal(&mut r, *max_kib as u64);
            push_str(&mut r, " KiB: ");
            push_decimal(&mut r, *actual_bytes);
            push_str(&mut r, " bytes");
            r
        },
        SkipReason::Binary => String::from_str("binary file"),
        SkipReason::Unreadable(e) => {
            let mut r = String::from_str("unreadable: ");
            push_str(&mut r, e.as_str());
            r
        },
    }
}

/// The warning for a file whose invalid UTF-8 was replaced.
pub open spec fn lossy_warning(rel: Seq<char>) -> Seq<char> {
    "[WARNING] "@ + rel + " is not valid UTF-8; replacement characters were used"@
}

/// The line for an attached file: `[EXPECT] ...` in a dry run, else `  + ...`.
pub open spec fn attached_line(rel: Seq<char>, tokens: usize, lossy: bool, dry_run: bool) -> Seq<char> {
    if dry_run {
        "[EXPECT] "@ + rel + " ("@ + decimal(tokens as nat) + " content tokens"@ + (if lossy {
            ", lossy UTF-8"@
        } else {
            Seq::empty()
        }) + ")"@
    } else {
        "  + "@ + rel + " ("@ + decimal(tokens as nat) + " content tokens)"@
    }
}

/// The dry-run line for a skipped file.
pub open spec fn skip_line(rel: Seq<char>, reason: SkipReason) -> Seq<char> {
    "[SKIP] "@ + rel + " ("@ + skip_text(reason) + ")"@
}

/// The warning for a file that could not be read.
pub open spec fn unreadable_warning(rel: Seq<char>, reason: SkipReason) -> Seq<char> {
    "[WARNING] Skipping "@ + rel + ": "@ + skip_text(reason)
}

/// What one file adds to a run: the pieces written to the output (each
/// counted on its own), the line for standard output and the warning for
/// standard error.
#[derive(Debug, PartialEq, Eq)]
pub struct FileOutput {
    pub pieces: Vec<String>,
    pub line: Option<String>,
    pub warning: Option<String>,
}

/// Whether the counts of an attached file's three pieces are known and fit.
pub open spec fn attached_fits(s: FileStats, rel: Seq<char>, content: Seq<char>) -> bool {
    &&& cl100k_tokens(opening_text(rel)) is Some
    &&& cl100k_tokens(content) is Some
    &&& cl100k_tokens(closing_text()) is Some
    &&& s.file_count + 1 <= usize::MAX
    &&& s.estimated_output_tokens + cl100k_tokens(opening_text(rel))->0 + cl100k_tokens(content)->0
        + cl100k_tokens(closing_text())->0 <= usize::MAX
}

fn some_text(s: String) -> (r: Option<String>)
    ensures
        r matches Some(t) && t@ == s@,
{
    Some(s)
}

/// What one file adds to a run (the loop body of `process_files`), given
/// what reading it gave. An attached file is counted and framed in a
/// block; a skipped one is counted as skipped. `None`, with the statistics
/// unchanged, where the tokenizer fails on a piece or a count would not fit.
pub fn process_file(
    stats: &mut FileStats,
    tok: &Tokenizer,
    rel_path: &str,
    inspected: &Result<InspectedFile, SkipReason>,
    dry_run: bool,
) -> (r: Option<FileOutput>)
    ensures
        r is None ==> *final(stats) == *old(stats),
        match inspected {
            Ok(f) => {
                &&& r is Some <==> attached_fits(*old(stats), rel_path@, f.content@)
                &&& r matches Some(o) ==> {
                    &&& *final(stats) == (FileStats {
                        file_count: (old(stats).file_count + 1) as usize,
                        skipped_count: old(stats).skipped_count,
                        estimated_output_tokens: (old(stats).estimated_output_tokens
                            + cl100k_tokens(opening_text(rel_path@))->0 + cl100k_tokens(
                            f.content@,
                        )->0 + cl100k_tokens(closing_text())->0) as usize,
                    })
                    &&& o.pieces.deep_view() == seq![
                        opening_text(rel_path@),
                        f.content@,
                        closing_text(),
                    ]
                    &&& o.line matches Some(l) && l@ == attached_line(
                        rel_path@,
                        cl100k_tokens(f.content@)->0,
                        f.lossy_utf8,
                        dry_run,
                    )
                    &&& f.lossy_utf8 ==> (o.warning matches Some(w) && w@ == lossy_warning(
                        rel_path@,
                    ))
                    &&& !f.lossy_utf8 ==> o.warning is None
                }
            },
            Err(reason) => {
                &&& r is Some <==> old(stats).skipped_count + 1 <= usize::MAX
                &&& r matches Some(o) ==> {
                    &&& *final(stats) == (FileStats {
                        skipped_count: (old(stats).skipped_count + 1) as usize,
                        ..*old(stats)
                    })
                    &&& o.pieces@.len() == 0
                    &&& dry_run ==> (o.line matches Some(l) && l@ == skip_line(rel_path@, *reason))
                    &&& !dry_run ==> o.line is None
                    &&& reason is Unreadable ==> (o.warning matches Some(w) && w@
                        == unreadable_warning(rel_path@, *reason))
                    &&& !(reason is Unreadable) ==> o.warning is None
                }
            },
        },
{
    match inspected {
        Ok(f) => {
            let mut opening = String::from_str("<file path=\"");
            push_str(&mut opening, escape_path_attribute(rel_path).as_str());
            push_str(&mut opening, "\">\n");
            let closing = String::from_str("\n</file>\n\n");
            let content_tokens = match tok.count(f.content.as_str()) {
                Some(n) => n,
                None => return None,
            };
            let opening_tokens = match tok.count(opening.as_str()) {
                Some(n) => n,
                None => return None,
            };
            let closing_tokens = match tok.count(closing.as_str()) {
                Some(n) => n,
                None => return None,
            };
            if stats.file_count == usize::MAX {
                return None;
            }
            let total = match stats.estimated_output_tokens.checked_add(opening_tokens) {
                Some(t) => match t.checked_add(content_tokens) {
                    Some(t) => match t.checked_add(closing_tokens) {
                        Some(t) => t,
                        None => return None,
                    },
                    None => return None,
                },
                None => return None,
            };
            stats.file_count = stats.file_count + 1;
            stats.estimated_output_tokens = total;
            let warning = if f.lossy_utf8 {
                let mut w = String::from_str("[WARNING] ");
                push_str(&mut w, rel_path);
                push_str(&mut w, " is not valid UTF-8; replacement characters were used");
                some_text(w)
            } else {
                None
            };
            let mut line = String::new();
            if dry_run {
                push_str(&mut line, "[EXPECT] ");
                push_str(&mut line, rel_path);
                push_str(&mut line, " (");
                push_decimal(&mut line, content_tokens as u64);
                push_str(&mut line, " content tokens");
                if f.lossy_utf8 {
                    push_str(&mut line, ", lossy UTF-8");
                } else {
                    assert(line@ + Seq::<char>::empty() == line@);
                }
                push_str(&mut line, ")");
            } else {
                push_str(&mut line, "  + ");
                push_str(&mut line, rel_path);
                push_str(&mut line, " (");
                push_decimal(&mut line, content_tokens as u64);
                push_str(&mut line, " content tokens)");
            }
            proof {
                assert(Seq::<char>::empty() + "[EXPECT] "@ == "[EXPECT] "@);
                assert(Seq::<char>::empty() + "  + "@ == "  + "@);
            }
            let mut pieces: Vec<String> = Vec::new();
            pieces.push(opening);
            pieces.push(f.content.clone());
            pieces.push(closing);
            Some(FileOutput { pieces, line: some_text(line), warning })
        },
        Err(reason) => {
            if stats.skipped_count == usize::MAX {
                return None;
            }
            stats.skipped_count = stats.skipped_count + 1;
            let message = skip_reason_text(reason);
            let line = if dry_run {
                let mut l = String::from_str("[SKIP] ");
                push_str(&mut l, rel_path);
                push_str(&mut l, " (");
                push_str(&mut l, message.as_str());
                push_str(&mut l, ")");
                some_text(l)
            } else {
                None
            };
            let warning = if let SkipReason::Unreadable(_) = reason {
                let mut w = String::from_str("[WARNING] Skipping ");
                push_str(&mut w, rel_path);
                push_str(&mut w, ": ");
                push_str(&mut w, message.as_str());
                some_text(w)
            } else {
                None
            };
            Some(FileOutput { pieces: Vec::new(), line, warning })
        },
    }
}

// ----------------------------------------------------------------------------
// Reports on a run
// ----------------------------------------------------------------------------

/// The closing summary of a run.
pub open spec fn stats_text(s: FileStats) -> Seq<char> {
    "======File processing completed======\nFiles Processed: "@ + decimal(s.file_count as nat)
        + "\nFiles Skipped: "@ + decimal(s.skipped_count as nat) + "\nEstimated Output Tokens: "@
        + decimal(s.estimated_output_tokens as nat) + "\n"@
}

/// The closing summary of a run.
pub fn render_stats(stats: &FileStats) -> (r: String)
    ensures
        r@ == stats_text(*stats),
{
    let mut r = String::from_str("======File processing completed======\nFiles Processed: ");
    push_decimal(&mut r, stats.file_count as u64);
    push_str(&mut r, "\nFiles Skipped: ");
    push_decimal(&mut r, stats.skipped_count as u64);
    push_str(&mut r, "\nEstimated Output Tokens: ");
    push_decimal(&mut r, stats.estimated_output_tokens as u64);
    push_str(&mut r, "\n");
    r
}

// ----------------------------------------------------------------------------
// Profiles as shown
// ----------------------------------------------------------------------------

/// An optional text value as shown, `(unset)` where unset.
pub open spec fn shown_text(v: Option<Seq<char>>) -> Seq<char> {
    match v {
        Some(t) => t,
        None => "(unset)"@,
    }
}

/// An optional number as shown, `(unset)` where unset.
pub open spec fn shown_number(v: Option<usize>) -> Seq<char> {
    match v {
        Some(n) => decimal(n as nat),
        None => "(unset)"@,
    }
}

/// An optional flag as shown, `(unset)` where unset.
pub open spec fn shown_flag(v: Option<bool>) -> Seq<char> {
    match v {
        Some(b) => if b {
            "true"@
        } else {
            "false"@
        },
        None => "(unset)"@,
    }
}

fn push_shown_text(s: &mut String, v: &Option<String>)
    ensures
        final(s)@ == old(s)@ + shown_text(opt_text_of(v)),
{
    match v {
        Some(t) => push_str(s, t.as_str()),
        None => push_str(s, "(unset)"),
    }
}

fn push_shown_number(s: &mut String, v: Option<usize>)
    ensures
        final(s)@ == old(s)@ + shown_number(v),
{
    match v {
        Some(n) => push_decimal(s, n as u64),
        None => push_str(s, "(unset)"),
    }
}

fn push_shown_flag(s: &mut String, v: Option<bool>)
    ensures
        final(s)@ == old(s)@ + shown_flag(v),
{
    match v {
        Some(true) => push_str(s, "true"),
        Some(false) => push_str(s, "false"),
        None => push_str(s, "(unset)"),
    }
}

/// The settings of a profile as shown.
pub open spec fn profile_show_text(name: Seq<char>, p: ProfileConfig) -> Seq<char> {
    "Profile: "@ + name + "\nDescription: "@ + shown_text(opt_text_of(&p.description))
        + "\n\nContent\n  output-path     "@ + shown_text(opt_text_of(&p.output_path))
        + "\n  include         "@ + shown_text(opt_text_of(&p.includes))
        + "\n  exclude         "@ + shown_text(opt_text_of(&p.exclude))
        + "\n  max-size        "@ + shown_number(p.max_size) + "\n\nTree\n  tree-include    "@
        + shown_text(opt_text_of(&p.tree_include)) + "\n  tree-exclude    "@ + shown_text(
        opt_text_of(&p.tree_exclude),
    ) + "\n  no-tree         "@ + shown_flag(p.no_tree) + "\n  tree-no-ignore  "@ + shown_flag(
        p.tree_no_ignore,
    ) + "\n\nBehavior\n  no-ignore       "@ + shown_flag(p.no_ignore) + "\n  no-blacklist    "@
        + shown_flag(p.no_blacklist) + "\n"@
}

/// The settings of a profile as shown.
pub fn render_profile_show(profile_name: &str, profile: &ProfileConfig) -> (r: String)
    ensures
        r@ == profile_show_text(profile_name@, *profile),
{
    let mut s = String::from_str("Profile: ");
    push_str(&mut s, profile_name);
    push_str(&mut s, "\nDescription: ");
    push_shown_text(&mut s, &profile.description);
    push_str(&mut s, "\n\nContent\n  output-path     ");
    push_shown_text(&mut s, &profile.output_path);
    push_str(&mut s, "\n  include         ");
    push_shown_text(&mut s, &profile.includes);
    push_str(&mut s, "\n  exclude         ");
    push_shown_text(&mut s, &profile.exclude);
    push_str(&mut s, "\n  max-size        ");
    push_shown_number(&mut s, profile.max_size);
    push_str(&mut s, "\n\nTree\n  tree-include    ");
    push_shown_text(&mut s, &profile.tree_include);
    push_str(&mut s, "\n  tree-exclude    ");
    push_shown_text(&mut s, &profile.tree_exclude);
    push_str(&mut s, "\n  no-tree         ");
    push_shown_flag(&mut s, profile.no_tree);
    push_str(&mut s, "\n  tree-no-ignore  ");
    push_shown_flag(&mut s, profile.tree_no_ignore);
    push_str(&mut s, "\n\nBehavior\n  no-ignore       ");
    push_shown_flag(&mut s, profile.no_ignore);
    push_str(&mut s, "\n  no-blacklist    ");
    push_shown_flag(&mut s, profile.no_blacklist);
    push_str(&mut s, "\n");
    s
}

/// A name padded with spaces to at least `width` characters (`{:<width}`).
pub open spec fn padded(name: Seq<char>, width: nat) -> Seq<char> {
    if name.len() < width {
        name + Seq::new((width - name.len()) as nat, |i: int| ' ')
    } else {
        name
    }
}

/// One line of the profile list.
pub open spec fn list_line(name: Seq<char>, p: ProfileConfig) -> Seq<char> {
    "  - "@ + padded(name, 15) + " : "@ + match opt_text_of(&p.description) {
        Some(d) => d,
        None => "No description"@,
    } + "\n"@
}

/// The lines of the profile list.
pub open spec fn list_lines(ps: Seq<(&String, &ProfileConfig)>) -> Seq<char>
    decreases ps.len(),
{
    if ps.len() == 0 {
        Seq::empty()
    } else {
        list_lines(ps.drop_last()) + list_line(ps.last().0@, *ps.last().1)
    }
}

/// The profile list (`profile list` without `--json`): a heading with
/// the configuration file, then each profile in the given order with its
/// description.
pub open spec fn profile_list_text(config_path: Seq<char>, ps: Seq<(&String, &ProfileConfig)>) -> Seq<
    char,
> {
    "Available profiles in "@ + config_path + ":\n"@ + list_lines(ps)
}

fn push_padded(s: &mut String, name: &str, width: usize)
    ensures
        final(s)@ == old(s)@ + padded(name@, width as nat),
{
    push_str(s, name);
    let n = chars_of(name).len();
    if n < width {
        let ghost base = s@;
        let mut k: usize = n;
        assert(Seq::new(0nat, |i: int| ' ') == Seq::<char>::empty());
        assert(base + Seq::<char>::empty() == base);
        while k < width
            invariant
                n == name@.len(),
                n <= k <= width,
                s@ == base + Seq::new((k - n) as nat, |i: int| ' '),
            decreases width - k,
        {
            push_char(s, ' ');
            assert(Seq::new((k + 1 - n) as nat, |i: int| ' ') == Seq::new(
                (k - n) as nat,
                |i: int| ' ',
            ).push(' '));
            k = k + 1;
        }
        assert(old(s)@ + (name@ + Seq::new((width - n) as nat, |i: int| ' ')) == base + Seq::new(
            (width - n) as nat,
            |i: int| ' ',
        ));
    }
}

/// The profile list (`profile list` without `--json`).
pub fn render_profile_list(config_path: &str, profiles: &Vec<(&String, &ProfileConfig)>) -> (r: String)
    ensures
        r@ == profile_list_text(config_path@, profiles@),
{
    let mut s = String::from_str("Available profiles in ");
    push_str(&mut s, config_path);
    push_str(&mut s, ":\n");
    let ghost head = s@;
    let mut i: usize = 0;
    while i < profiles.len()
        invariant
            i <= profiles.len(),
            s@ == head + list_lines(profiles@.take(i as int)),
            head == "Available profiles in "@ + config_path@ + ":\n"@,
        decreases profiles.len() - i,
    {
        let (name, profile) = profiles[i];
        assert(profiles@.take(i + 1).drop_last() == profiles@.take(i as int));
        assert(profiles@.take(i + 1).last() == profiles@[i as int]);
        push_str(&mut s, "  - ");
        push_padded(&mut s, name.as_str(), 15);
        push_str(&mut s, " : ");
        match &profile.description {
            Some(d) => push_str(&mut s, d.as_str()),
            None => push_str(&mut s, "No description"),
        }
        push_str(&mut s, "\n");
        i = i + 1;
    }
    assert(profiles@.take(profiles.len() as int) == profiles@);
    s
}

} // verus!
