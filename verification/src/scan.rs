//! Selecting what a run reads: which walked entries become content
//! candidates or tree entries, in which order, and whether a file's bytes
//! are attached as text.

use vstd::prelude::*;
use vstd::utf8::{decode_utf8, valid_utf8};
use crate::config::AppConfig;
use crate::filter::{
    filter_model, filter_verdict, opt_text, FileFilter, FilterError, FilterModel,
};
use crate::path::{
    components, components_of, file_name, file_name_of, is_absolute, join_path, join_path_of,
    lemma_parts_lt_asymmetric, lemma_parts_lt_transitive, parts_less, parts_lt, path_lt,
    same_components, strip_prefix, strip_prefix_of,
};
use crate::text::{chars_of, hex_char, hex_upper, push_char, push_hex_upper, push_str, seqs_of};
use crate::tree::{child_named, kind_at, render, Node};

verus! {

// ----------------------------------------------------------------------------
// Text decoding (std)
// ----------------------------------------------------------------------------

/// What `String::from_utf8_lossy` makes of bytes that are not valid UTF-8.
pub uninterp spec fn utf8_lossy_text(bytes: Seq<u8>) -> Seq<char>;

/// `String::from_utf8`: the text where the bytes are valid UTF-8, else
/// the bytes back. Trusted: std documents exactly this.
#[verifier::external_body]
fn decode_strict(bytes: Vec<u8>) -> (r: Result<String, Vec<u8>>)
    ensures
        match r {
            Ok(s) => valid_utf8(bytes@) && s@ == decode_utf8(bytes@),
            Err(b) => !valid_utf8(bytes@) && b@ == bytes@,
        },
{
    String::from_utf8(bytes).map_err(|e| e.into_bytes())
}

/// `String::from_utf8_lossy`: invalid sequences become U+FFFD. Trusted:
/// the result is `utf8_lossy_text` of the bytes; as std documents, valid
/// UTF-8 is decoded as it is, and an invalid sequence leaves at least one
/// U+FFFD REPLACEMENT CHARACTER in the text.
#[verifier::external_body]
pub(crate) fn decode_lossy(bytes: &Vec<u8>) -> (r: String)
    ensures
        r@ == utf8_lossy_text(bytes@),
        valid_utf8(bytes@) ==> r@ == decode_utf8(bytes@),
        !valid_utf8(bytes@) ==> r@.contains('\u{FFFD}'),
{
    String::from_utf8_lossy(bytes.as_slice()).into_owned()
}

// ----------------------------------------------------------------------------
// Candidates and files
// ----------------------------------------------------------------------------

/// A file whose content may be attached: its path, and its path relative
/// to the scan root.
#[derive(Debug, PartialEq, Eq)]
pub struct Candidate {
    pub full_path: String,
    pub rel_path: String,
}

/// What a scan selected: the output path, the drawn tree, the content
/// candidates in path order, and how many walk errors occurred.
#[derive(Debug, PartialEq, Eq)]
pub struct ScanSelection {
    pub output_path: String,
    pub tree: Option<String>,
    pub candidates: Vec<Candidate>,
    pub walk_errors: usize,
}

/// Why a candidate's content is not attached.
#[derive(Debug, PartialEq, Eq)]
pub enum SkipReason {
    TooLarge { max_kib: usize, actual_bytes: u64 },
    Binary,
    Unreadable(String),
}

/// A file's content as attached, and whether invalid UTF-8 was replaced.
#[derive(Debug, PartialEq, Eq)]
pub struct InspectedFile {
    pub content: String,
    pub lossy_utf8: bool,
}

/// The size limit in bytes for a limit in KiB (saturating).
pub open spec fn max_bytes(max_kib: usize) -> int {
    if max_kib * 1024 > u64::MAX {
        u64::MAX as int
    } else {
        max_kib * 1024
    }
}

/// Whether a file of `actual_bytes` bytes is over the limit: a file of
/// exactly the limit is kept.
pub fn check_size(actual_bytes: u64, max_kib: usize) -> (r: Option<SkipReason>)
    ensures
        actual_bytes > max_bytes(max_kib) ==> r == Some(
            SkipReason::TooLarge { max_kib, actual_bytes },
        ),
        actual_bytes <= max_bytes(max_kib) ==> r is None,
{
    let kib = max_kib as u64;
    let limit = if kib > u64::MAX / 1024 {
        u64::MAX
    } else {
        kib * 1024
    };
    if actual_bytes > limit {
        Some(SkipReason::TooLarge { max_kib, actual_bytes })
    } else {
        None
    }
}

/// What a file's bytes become: a file holding a NUL byte is binary; valid
/// UTF-8 is attached as it is; anything else is attached with replacement
/// characters and flagged.
pub fn inspect_content(bytes: Vec<u8>) -> (r: Result<InspectedFile, SkipReason>)
    ensures
        bytes@.contains(0u8) ==> r == Err::<InspectedFile, SkipReason>(SkipReason::Binary),
        !bytes@.contains(0u8) && valid_utf8(bytes@) ==> (r matches Ok(f) && f.content@
            == decode_utf8(bytes@) && !f.lossy_utf8),
        !bytes@.contains(0u8) && !valid_utf8(bytes@) ==> (r matches Ok(f) && f.content@
            == utf8_lossy_text(bytes@) && f.content@.contains('\u{FFFD}') && f.lossy_utf8),
{
    let n = bytes.len();
    let mut i: usize = 0;
    while i < n
        invariant
            n == bytes.len(),
            i <= n,
            forall|k: int| 0 <= k < i ==> bytes@[k] != 0u8,
        decreases n - i,
    {
        if bytes[i] == 0u8 {
            assert(bytes@[i as int] == 0u8);
            return Err(SkipReason::Binary);
        }
        i = i + 1;
    }
    let ghost b = bytes@;
    match decode_strict(bytes) {
        Ok(content) => Ok(InspectedFile { content, lossy_utf8: false }),
        Err(raw) => {
            let content = decode_lossy(&raw);
            Ok(InspectedFile { content, lossy_utf8: true })
        },
    }
}

// ----------------------------------------------------------------------------
// Escaping
// ----------------------------------------------------------------------------

/// `char::is_control`: the control characters U+0000 to U+001F and U+007F
/// to U+009F.
pub open spec fn is_control(c: char) -> bool {
    (c as u32) <= 0x1f || (0x7f <= (c as u32) <= 0x9f)
}

/// How one character of a path is written in a `path="…"` attribute.
pub open spec fn escape_char(c: char) -> Seq<char> {
    if c == '&' {
        "&amp;"@
    } else if c == '<' {
        "&lt;"@
    } else if c == '>' {
        "&gt;"@
    } else if c == '"' {
        "&quot;"@
    } else if c == '\n' {
        "\\n"@
    } else if c == '\r' {
        "\\r"@
    } else if c == '\t' {
        "\\t"@
    } else if is_control(c) {
        "\\u{"@ + hex_upper((c as u32) as nat) + "}"@
    } else {
        seq![c]
    }
}

/// A path written for a `path="…"` attribute, character by character.
pub open spec fn escape_text(s: Seq<char>) -> Seq<char>
    decreases s.len(),
{
    if s.len() == 0 {
        Seq::<char>::empty()
    } else {
        escape_text(s.drop_last()) + escape_char(s.last())
    }
}

/// A path escaped for a `path="…"` attribute.
pub fn escape_path_attribute(path: &str) -> (r: String)
    ensures
        r@ == escape_text(path@),
{
    let cs = chars_of(path);
    let mut out = String::new();
    let n = cs.len();
    let mut i: usize = 0;
    while i < n
        invariant
            n == cs.len(),
            i <= n,
            cs@ == path@,
            out@ == escape_text(cs@.take(i as int)),
        decreases n - i,
    {
        let c = cs[i];
        let ghost before = out@;
        let u = c as u32;
        if c == '&' {
            push_str(&mut out, "&amp;");
        } else if c == '<' {
            push_str(&mut out, "&lt;");
        } else if c == '>' {
            push_str(&mut out, "&gt;");
        } else if c == '"' {
            push_str(&mut out, "&quot;");
        } else if c == '\n' {
            push_str(&mut out, "\\n");
        } else if c == '\r' {
            push_str(&mut out, "\\r");
        } else if c == '\t' {
            push_str(&mut out, "\\t");
        } else if u <= 0x1f || (0x7f <= u && u <= 0x9f) {
            push_str(&mut out, "\\u{");
            push_hex_upper(&mut out, u);
            push_str(&mut out, "}");
        } else {
            push_char(&mut out, c);
            assert(out@ =~= before + seq![c]);
        }
        assert(cs@.take(i + 1).drop_last() == cs@.take(i as int));
        assert(cs@.take(i + 1).last() == c);
        assert(out@ =~= escape_text(cs@.take(i + 1)));
        i = i + 1;
    }
    assert(cs@.take(n as int) == cs@);
    out
}

// ----------------------------------------------------------------------------
// Filters of a run
// ----------------------------------------------------------------------------

/// The content filter of a run.
pub fn content_filter(args: &AppConfig) -> (r: Result<FileFilter, FilterError>)
    ensures
        match (r, filter_model(
            opt_text_of(&args.includes),
            opt_text_of(&args.exclude),
            args.no_blacklist,
        )) {
            (Ok(f), Ok(m)) => f@ == m && f.wf(),
            (Err(FilterError::InvalidGlob { pattern }), Err(p)) => pattern@ == p,
            _ => false,
        },
{
    FileFilter::new(as_text(&args.includes), as_text(&args.exclude), args.no_blacklist)
}

/// The tree filter of a run: the tree's own pattern lists where given,
/// else those of the content.
pub fn tree_filter(args: &AppConfig) -> (r: Result<FileFilter, FilterError>)
    ensures
        match (r, filter_model(
            tree_patterns(&args.tree_include, &args.includes),
            tree_patterns(&args.tree_exclude, &args.exclude),
            args.no_blacklist,
        )) {
            (Ok(f), Ok(m)) => f@ == m && f.wf(),
            (Err(FilterError::InvalidGlob { pattern }), Err(p)) => pattern@ == p,
            _ => false,
        },
{
    let inc = match &args.tree_include {
        Some(t) => Some(t.as_str()),
        None => as_text(&args.includes),
    };
    let ex = match &args.tree_exclude {
        Some(t) => Some(t.as_str()),
        None => as_text(&args.exclude),
    };
    FileFilter::new(inc, ex, args.no_blacklist)
}

/// The text of an optional string.
pub open spec fn opt_text_of(s: &Option<String>) -> Option<Seq<char>> {
    match s {
        Some(t) => Some(t@),
        None => None,
    }
}

/// A tree pattern list: its own where given, else the content's.
pub open spec fn tree_patterns(own: &Option<String>, content: &Option<String>) -> Option<Seq<char>> {
    if own is Some {
        opt_text_of(own)
    } else {
        opt_text_of(content)
    }
}

fn as_text(s: &Option<String>) -> (r: Option<&str>)
    ensures
        opt_text(r) == opt_text_of(s),
{
    match s {
        Some(t) => Some(t.as_str()),
        None => None,
    }
}

/// The tree shares the content's rules unless it is given its own: with no
/// tree-specific pattern list the tree filter is the content filter.
pub proof fn law_tree_inherits_content_rules(args: AppConfig)
    requires
        args.tree_include is None,
        args.tree_exclude is None,
    ensures
        filter_model(
            tree_patterns(&args.tree_include, &args.includes),
            tree_patterns(&args.tree_exclude, &args.exclude),
            args.no_blacklist,
        ) == filter_model(
            opt_text_of(&args.includes),
            opt_text_of(&args.exclude),
            args.no_blacklist,
        ),
{
}

// ----------------------------------------------------------------------------
// Walked entries
// ----------------------------------------------------------------------------

/// Where a walked symbolic link points, as far as it could be resolved.
#[derive(Debug, PartialEq, Eq)]
pub enum LinkTarget {
    /// The entry is not a symbolic link.
    NotLink,
    /// The canonical path of the link's target.
    Target(String),
    /// The target could not be resolved, with the error text.
    Unresolved(String),
}

/// What the content walk does with one entry.
#[derive(Debug, PartialEq, Eq)]
pub enum EntryAction {
    /// The entry is not a content candidate.
    Skip,
    /// The entry is a content candidate.
    Keep(Candidate),
    /// A link whose target lies outside the scan root: skipped, with a
    /// warning, and counted as a walk error.
    OutsideRoot { rel_path: String, target: String },
    /// A link whose target could not be resolved: skipped, with a warning,
    /// and counted as a walk error.
    UnresolvedLink { rel_path: String, error: String },
}

/// The path of an entry relative to the scan root, or the entry's own path
/// where it does not lie below the root.
pub open spec fn relative_to(entry: Seq<char>, root: Seq<char>) -> Seq<char> {
    match strip_prefix(entry, root) {
        Some(r) => r,
        None => entry,
    }
}

/// The relative path of an entry.
pub fn relative_path(entry: &str, root: &str) -> (r: String)
    ensures
        r@ == relative_to(entry@, root@),
{
    match strip_prefix_of(entry, root) {
        Some(r) => r,
        None => entry.to_owned(),
    }
}

/// Decides what the content walk does with an entry: the current output
/// file is never a candidate; an entry that the filter leaves out, or a
/// directory, is skipped; a link must point inside the scan root.
pub fn content_entry(
    filter: &FileFilter,
    root: &str,
    entry_path: &str,
    is_output: bool,
    is_dir: bool,
    link: &LinkTarget,
) -> (r: EntryAction)
    requires
        filter.wf(),
    ensures
        is_output ==> r == EntryAction::Skip,
        !is_output && !(filter_verdict(filter@, relative_to(entry_path@, root@)) is Included)
            ==> r == EntryAction::Skip,
        !is_output && filter_verdict(filter@, relative_to(entry_path@, root@)) is Included
            ==> match *link {
            LinkTarget::NotLink => if is_dir {
                r == EntryAction::Skip
            } else {
                r matches EntryAction::Keep(c) && c.full_path@ == entry_path@ && c.rel_path@
                    == relative_to(entry_path@, root@)
            },
            LinkTarget::Target(t) => if is_dir {
                r == EntryAction::Skip
            } else if strip_prefix(t@, root@) is Some {
                r matches EntryAction::Keep(c) && c.full_path@ == entry_path@ && c.rel_path@
                    == relative_to(entry_path@, root@)
            } else {
                r matches EntryAction::OutsideRoot { rel_path, target } && rel_path@
                    == relative_to(entry_path@, root@) && target@ == t@
            },
            LinkTarget::Unresolved(e) => if is_dir {
                r == EntryAction::Skip
            } else {
                r matches EntryAction::UnresolvedLink { rel_path, error } && rel_path@
                    == relative_to(entry_path@, root@) && error@ == e@
            },
        },
{
    if is_output {
        return EntryAction::Skip;
    }
    let rel = relative_path(entry_path, root);
    if !filter.is_match(rel.as_str()) {
        return EntryAction::Skip;
    }
    if is_dir {
        return EntryAction::Skip;
    }
    match link {
        LinkTarget::NotLink => EntryAction::Keep(
            Candidate { full_path: entry_path.to_owned(), rel_path: rel },
        ),
        LinkTarget::Target(target) => {
            if strip_prefix_of(target.as_str(), root).is_some() {
                EntryAction::Keep(Candidate { full_path: entry_path.to_owned(), rel_path: rel })
            } else {
                EntryAction::OutsideRoot { rel_path: rel, target: target.clone() }
            }
        },
        LinkTarget::Unresolved(error) => EntryAction::UnresolvedLink {
            rel_path: rel,
            error: error.clone(),
        },
    }
}

/// The relative path under which the tree walk records an entry, or
/// `None` where it skips it (the current output, or filtered out).
pub fn tree_entry(filter: &FileFilter, root: &str, entry_path: &str, is_output: bool) -> (r:
    Option<String>)
    requires
        filter.wf(),
    ensures
        r matches Some(rel) ==> !is_output && rel@ == relative_to(entry_path@, root@)
            && filter_verdict(filter@, rel@) is Included,
        r is None ==> is_output || !(filter_verdict(
            filter@,
            relative_to(entry_path@, root@),
        ) is Included),
{
    if is_output {
        return None;
    }
    let rel = relative_path(entry_path, root);
    if filter.is_match(rel.as_str()) {
        Some(rel)
    } else {
        None
    }
}

/// The drawn tree: the root's name with `/`, then its children.
pub open spec fn tree_text(root_name: Seq<char>, n: Node) -> Seq<char> {
    root_name + "/\n"@ + render(n, Seq::<char>::empty())
}

/// The name a tree's root is shown by: the scan root's file name, or `.`.
pub open spec fn root_label(root: Seq<char>) -> Seq<char> {
    match file_name(root) {
        Some(n) => n,
        None => "."@,
    }
}

/// The drawn tree of a scan root.
pub fn draw_tree(root: &str, tree: &Node) -> (r: String)
    ensures
        r@ == tree_text(root_label(root@), *tree),
{
    let mut out = match file_name_of(root) {
        Some(n) => n,
        None => String::from_str("."),
    };
    push_str(&mut out, "/\n");
    let body = tree.print("");
    push_str(&mut out, body.as_str());
    assert(""@ =~= Seq::<char>::empty()) by {
        reveal_strlit("");
    }
    out
}

// ----------------------------------------------------------------------------
// Candidate order
// ----------------------------------------------------------------------------

/// Candidates ordered by relative path: no candidate sorts before one that
/// comes earlier.
pub open spec fn candidates_sorted(cs: Seq<Candidate>) -> bool {
    forall|a: int, b: int|
        0 <= a < b < cs.len() ==> !path_lt(#[trigger] cs[b].rel_path@, #[trigger] cs[a].rel_path@)
}

/// Whether a candidate's relative path has the components `k`.
pub open spec fn key_is(k: Seq<Seq<char>>) -> spec_fn(Candidate) -> bool {
    |c: Candidate| components(c.rel_path@) == k
}

proof fn lemma_filter_none(s: Seq<Candidate>, p: spec_fn(Candidate) -> bool)
    requires
        forall|j: int| 0 <= j < s.len() ==> !p(#[trigger] s[j]),
    ensures
        s.filter(p) == Seq::<Candidate>::empty(),
    decreases s.len(),
{
    reveal(Seq::filter);
    if s.len() > 0 {
        assert forall|j: int| 0 <= j < s.drop_last().len() implies !p(#[trigger] s.drop_last()[j]) by {
            assert(s.drop_last()[j] == s[j]);
        }
        lemma_filter_none(s.drop_last(), p);
        assert(!p(s[s.len() - 1]));
    } else {
        assert(s =~= Seq::<Candidate>::empty());
    }
}

/// Inserting `c` where no later candidate has its path adds it at the end
/// of its own group and leaves every other group as it was.
proof fn lemma_insert_keeps_groups(old_r: Seq<Candidate>, pos: int, c: Candidate, k: Seq<Seq<char>>)
    requires
        0 <= pos <= old_r.len(),
        forall|j: int|
            pos <= j < old_r.len() ==> components(#[trigger] old_r[j].rel_path@) != components(
                c.rel_path@,
            ),
    ensures
        old_r.insert(pos, c).filter(key_is(k)) == (if key_is(k)(c) {
            old_r.filter(key_is(k)).push(c)
        } else {
            old_r.filter(key_is(k))
        }),
{
    reveal(Seq::filter);
    let p = key_is(k);
    let a = old_r.take(pos);
    let b = old_r.skip(pos);
    let one = seq![c];
    assert(old_r.insert(pos, c) =~= a + one + b);
    assert(old_r =~= a + b);
    Seq::filter_distributes_over_add(a + one, b, p);
    Seq::filter_distributes_over_add(a, one, p);
    Seq::filter_distributes_over_add(a, b, p);
    assert(one.drop_last() =~= Seq::<Candidate>::empty());
    assert(one.filter(p) == (if p(c) {
        seq![c]
    } else {
        Seq::<Candidate>::empty()
    })) by {
        assert(one.last() == c);
        assert(Seq::<Candidate>::empty().filter(p) =~= Seq::<Candidate>::empty());
        assert(one.drop_last().filter(p) =~= Seq::<Candidate>::empty());
        assert(Seq::<Candidate>::empty().push(c) =~= seq![c]);
    }
    if p(c) {
        assert forall|j: int| 0 <= j < b.len() implies !p(#[trigger] b[j]) by {
            assert(b[j] == old_r[pos + j]);
        }
        lemma_filter_none(b, p);
        assert(a.filter(p) + seq![c] + Seq::<Candidate>::empty() =~= (a.filter(p) + b.filter(p)).push(
            c,
        ));
    } else {
        assert(a.filter(p) + Seq::<Candidate>::empty() =~= a.filter(p));
    }
}

/// Orders candidates by relative path; candidates with the same path keep
/// the order they came in.
pub fn sort_candidates(v: Vec<Candidate>) -> (r: Vec<Candidate>)
    ensures
        r@.to_multiset() == v@.to_multiset(),
        candidates_sorted(r@),
        forall|k: Seq<Seq<char>>| #[trigger] r@.filter(key_is(k)) == v@.filter(key_is(k)),
{
    broadcast use vstd::seq_lib::group_to_multiset_ensures;

    let ghost orig = v@;
    let mut r: Vec<Candidate> = Vec::new();
    let mut keys: Vec<Vec<Vec<char>>> = Vec::new();
    let mut rest = v;
    let ghost mut i: int = 0;
    assert(orig.skip(0) == orig);
    assert(orig.take(0) =~= Seq::<Candidate>::empty());
    while rest.len() > 0
        invariant
            0 <= i <= orig.len(),
            rest@ == orig.skip(i),
            r@.to_multiset() == orig.take(i).to_multiset(),
            candidates_sorted(r@),
            keys.len() == r.len(),
            forall|k: int| 0 <= k < r.len() ==> seqs_of(#[trigger] keys@[k]@) == components(
                r@[k].rel_path@,
            ),
            forall|k: Seq<Seq<char>>| #[trigger] r@.filter(key_is(k)) == orig.take(i).filter(key_is(k)),
        decreases rest.len(),
    {
        let c = rest.remove(0);
        let key = components_of(&chars_of(c.rel_path.as_str()));
        let mut pos: usize = 0;
        while pos < r.len() && !parts_less(&key, &keys[pos])
            invariant
                pos <= r.len(),
                keys.len() == r.len(),
                seqs_of(key@) == components(c.rel_path@),
                forall|k: int| 0 <= k < r.len() ==> seqs_of(#[trigger] keys@[k]@) == components(
                    r@[k].rel_path@,
                ),
                forall|j: int| 0 <= j < pos ==> !path_lt(c.rel_path@, #[trigger] r@[j].rel_path@),
            decreases r.len() - pos,
        {
            pos = pos + 1;
        }
        let ghost old_r = r@;
        let ghost cv = c;
        proof {
            if pos < old_r.len() {
                assert(path_lt(c.rel_path@, old_r[pos as int].rel_path@));
            }
        }
        r.insert(pos, c);
        keys.insert(pos, key);
        proof {
            let nr = r@;
            assert(nr.remove(pos as int) =~= old_r);
            assert(nr[pos as int] == cv);
            assert(nr.contains(cv));
            nr.to_multiset_ensures();
            old_r.to_multiset_ensures();
            assert(nr.to_multiset().count(cv) > 0);
            assert(nr.to_multiset() =~= old_r.to_multiset().insert(cv));
            assert(orig.take(i + 1) =~= orig.take(i).push(cv)) by {
                assert(orig.skip(i)[0] == orig[i]);
            }
            orig.take(i).to_multiset_ensures();
            assert(orig.take(i).push(cv).to_multiset() =~= orig.take(i).to_multiset().insert(cv));
            assert forall|a: int, b: int| 0 <= a < b < nr.len() implies !path_lt(
                #[trigger] nr[b].rel_path@,
                #[trigger] nr[a].rel_path@,
            ) by {
                if b < pos {
                    assert(nr[a] == old_r[a] && nr[b] == old_r[b]);
                } else if b == pos {
                    assert(nr[a] == old_r[a]);
                } else if a < pos {
                    assert(nr[a] == old_r[a] && nr[b] == old_r[b - 1]);
                } else if a == pos {
                    assert(nr[b] == old_r[b - 1]);
                    let x = components(cv.rel_path@);
                    let p0 = components(old_r[pos as int].rel_path@);
                    let pb = components(old_r[b - 1].rel_path@);
                    assert(parts_lt(x, p0));
                    if parts_lt(pb, x) {
                        if b - 1 == pos {
                            lemma_parts_lt_asymmetric(x, p0);
                        } else {
                            lemma_parts_lt_transitive(pb, x, p0);
                            assert(!path_lt(old_r[b - 1].rel_path@, old_r[pos as int].rel_path@));
                        }
                    }
                } else {
                    assert(nr[a] == old_r[a - 1] && nr[b] == old_r[b - 1]);
                }
            }
            assert forall|k: int| 0 <= k < nr.len() implies seqs_of(#[trigger] keys@[k]@)
                == components(nr[k].rel_path@) by {
                if k < pos {
                    assert(nr[k] == old_r[k]);
                } else if k > pos {
                    assert(nr[k] == old_r[k - 1]);
                }
            }
            assert forall|j: int| pos <= j < old_r.len() implies components(
                #[trigger] old_r[j].rel_path@,
            ) != components(cv.rel_path@) by {
                let x = components(cv.rel_path@);
                let p0 = components(old_r[pos as int].rel_path@);
                assert(parts_lt(x, p0));
                if components(old_r[j].rel_path@) == x {
                    if j == pos {
                        lemma_parts_lt_asymmetric(x, p0);
                    } else {
                        assert(!path_lt(old_r[j].rel_path@, old_r[pos as int].rel_path@));
                    }
                }
            }
            assert(nr =~= old_r.insert(pos as int, cv));
            assert forall|k: Seq<Seq<char>>| #[trigger] nr.filter(key_is(k)) == orig.take(i + 1).filter(
                key_is(k),
            ) by {
                reveal(Seq::filter);
                lemma_insert_keeps_groups(old_r, pos as int, cv, k);
                let t = orig.take(i + 1);
                assert(t.drop_last() =~= orig.take(i));
                assert(t.last() == cv);
                assert(old_r.filter(key_is(k)) == orig.take(i).filter(key_is(k)));
            }
            assert(rest@ =~= orig.skip(i + 1));
            i = i + 1;
        }
    }
    assert(orig.take(i) =~= orig);
    r
}

// ----------------------------------------------------------------------------
// Scan root and output path
// ----------------------------------------------------------------------------

/// Why a scan cannot start.
#[derive(Debug, PartialEq, Eq)]
pub enum ScanError {
    /// The scan root could not be resolved; the path as given, and the
    /// error text as the cause (not part of the message).
    RootUnresolved { path: String, error: String },
    /// The scan root is not a directory.
    NotADirectory { path: String },
}

/// The message shown for a failure to start a scan.
pub open spec fn scan_message(e: ScanError) -> Seq<char> {
    match e {
        ScanError::RootUnresolved { path, .. } => "Failed to resolve scan root: "@ + path@,
        ScanError::NotADirectory { path } => "Scan path must be a directory: "@ + path@,
    }
}

impl ScanError {
    /// The message shown for the failure.
    pub fn message(&self) -> (r: String)
        ensures
            r@ == scan_message(*self),
    {
        match self {
            ScanError::RootUnresolved { path, .. } => {
                let mut r = String::from_str("Failed to resolve scan root: ");
                push_str(&mut r, path.as_str());
                r
            },
            ScanError::NotADirectory { path } => {
                let mut r = String::from_str("Scan path must be a directory: ");
                push_str(&mut r, path.as_str());
                r
            },
        }
    }
}

/// The scan root, given what resolving `path` gave and
/// whether the resolved path is a directory: the resolved path, or why
/// there is none.
pub fn validate_root(path: &str, resolved: Result<String, String>, is_dir: bool) -> (r: Result<
    String,
    ScanError,
>)
    ensures
        match resolved {
            Err(e) => r matches Err(ScanError::RootUnresolved { path: p, error }) && p@ == path@
                && error@ == e@,
            Ok(root) => if is_dir {
                r matches Ok(v) && v@ == root@
            } else {
                r matches Err(ScanError::NotADirectory { path: p }) && p@ == path@
            },
        },
{
    match resolved {
        Err(e) => Err(ScanError::RootUnresolved { path: path.to_owned(), error: e }),
        Ok(root) => if is_dir {
            Ok(root)
        } else {
            Err(ScanError::NotADirectory { path: path.to_owned() })
        },
    }
}

/// The output path made absolute against the current directory; an
/// absolute path stays as it is.
pub fn absolute_output_path(path: &str, current_dir: &str) -> (r: String)
    ensures
        r@ == (if is_absolute(path@) {
            path@
        } else {
            join_path(current_dir@, path@)
        }),
{
    join_path_of(current_dir, path)
}

/// Whether a path is the output file: the same path, or
/// the same canonical path where both could be resolved.
pub fn same_file_path(
    path: &str,
    output_path: &str,
    canonical_path: Option<String>,
    canonical_output: Option<String>,
) -> (r: bool)
    ensures
        r == (components(path@) == components(output_path@) || (canonical_path matches Some(a)
            && canonical_output matches Some(b) && components(a@) == components(b@))),
{
    if same_components(path, output_path) {
        return true;
    }
    match (canonical_path, canonical_output) {
        (Some(a), Some(b)) => same_components(a.as_str(), b.as_str()),
        _ => false,
    }
}

// ----------------------------------------------------------------------------
// Walks
// ----------------------------------------------------------------------------

/// One result of walking the scan root: an entry with what the walk and
/// the file system tell of it, or a walk error.
#[derive(Debug, PartialEq, Eq)]
pub enum WalkEntry {
    Found { path: String, is_output: bool, is_dir: bool, link: LinkTarget },
    Failed { error: String },
}

/// What the content walk makes of one entry.
pub enum EntryModel {
    Skip,
    /// A candidate: its path and its path relative to the root.
    Keep(Seq<char>, Seq<char>),
    /// Skipped with this warning, counted as a walk error.
    Warn(Seq<char>),
}

/// What the content walk makes of one entry.
pub open spec fn content_model(m: FilterModel, root: Seq<char>, e: WalkEntry) -> EntryModel {
    match e {
        WalkEntry::Failed { error } => EntryModel::Warn(
            "[WARNING] Failed while scanning content: "@ + error@,
        ),
        WalkEntry::Found { path, is_output, is_dir, link } => {
            let rel = relative_to(path@, root);
            if is_output || !(filter_verdict(m, rel) is Included) || is_dir {
                EntryModel::Skip
            } else {
                match link {
                    LinkTarget::NotLink => EntryModel::Keep(path@, rel),
                    LinkTarget::Target(t) => if strip_prefix(t@, root) is Some {
                        EntryModel::Keep(path@, rel)
                    } else {
                        EntryModel::Warn(
                            "[WARNING] Skipping symlink outside scan root: "@ + rel + " -> "@ + t@,
                        )
                    },
                    LinkTarget::Unresolved(err) => EntryModel::Warn(
                        "[WARNING] Skipping unreadable symlink "@ + rel + ": "@ + err@,
                    ),
                }
            }
        },
    }
}

/// The candidates of a content walk, in walk order.
pub open spec fn kept_candidates(m: FilterModel, root: Seq<char>, es: Seq<WalkEntry>) -> Seq<
    (Seq<char>, Seq<char>),
>
    decreases es.len(),
{
    if es.len() == 0 {
        Seq::empty()
    } else {
        let rest = kept_candidates(m, root, es.drop_last());
        match content_model(m, root, es.last()) {
            EntryModel::Keep(f, r) => rest.push((f, r)),
            _ => rest,
        }
    }
}

/// The warnings of a content walk, in walk order.
pub open spec fn content_warnings(m: FilterModel, root: Seq<char>, es: Seq<WalkEntry>) -> Seq<
    Seq<char>,
>
    decreases es.len(),
{
    if es.len() == 0 {
        Seq::empty()
    } else {
        let rest = content_warnings(m, root, es.drop_last());
        match content_model(m, root, es.last()) {
            EntryModel::Warn(w) => rest.push(w),
            _ => rest,
        }
    }
}

/// What the tree walk makes of one entry: the relative
/// path to insert and whether it is a directory.
pub open spec fn tree_model(m: FilterModel, root: Seq<char>, e: WalkEntry) -> Option<(Seq<char>, bool)> {
    match e {
        WalkEntry::Failed { .. } => None,
        WalkEntry::Found { path, is_output, is_dir, .. } => {
            let rel = relative_to(path@, root);
            if is_output || !(filter_verdict(m, rel) is Included) {
                None
            } else {
                Some((rel, is_dir))
            }
        },
    }
}

/// The warnings of a tree walk, in walk order.
pub open spec fn tree_warnings(es: Seq<WalkEntry>) -> Seq<Seq<char>>
    decreases es.len(),
{
    if es.len() == 0 {
        Seq::empty()
    } else {
        let rest = tree_warnings(es.drop_last());
        match es.last() {
            WalkEntry::Failed { error } => rest.push(
                "[WARNING] Failed while scanning tree: "@ + error@,
            ),
            _ => rest,
        }
    }
}

/// What is at `q` in the tree of a walk: a directory at the root, and
/// each kept entry inserted in walk order.
pub open spec fn walk_kind(m: FilterModel, root: Seq<char>, es: Seq<WalkEntry>, q: Seq<Seq<char>>) -> Option<
    bool,
>
    decreases es.len(),
{
    if es.len() == 0 {
        if q.len() == 0 {
            Some(true)
        } else {
            None
        }
    } else {
        match tree_model(m, root, es.last()) {
            None => walk_kind(m, root, es.drop_last(), q),
            Some((rel, d)) => {
                let cs = components(rel);
                if q == cs {
                    Some(d)
                } else if 0 < q.len() < cs.len() && q == cs.take(q.len() as int) {
                    match walk_kind(m, root, es.drop_last(), q) {
                        Some(v) => Some(v),
                        None => Some(true),
                    }
                } else {
                    walk_kind(m, root, es.drop_last(), q)
                }
            },
        }
    }
}

/// A candidate by the text of its two paths.
pub open spec fn candidate_paths(cs: Seq<Candidate>) -> Seq<(Seq<char>, Seq<char>)> {
    cs.map_values(|c: Candidate| (c.full_path@, c.rel_path@))
}

fn push_warning(ws: &mut Vec<String>, w: String)
    ensures
        final(ws).deep_view() == old(ws).deep_view().push(w@),
{
    let ghost before = ws.deep_view();
    let ghost wv = w@;
    ws.push(w);
    assert(ws.deep_view() =~= before.push(wv));
}

/// The content walk: the candidates in walk order and
/// the warnings.
fn collect_content(filter: &FileFilter, root: &str, walk: &Vec<WalkEntry>) -> (r: (
    Vec<Candidate>,
    Vec<String>,
))
    requires
        filter.wf(),
    ensures
        candidate_paths(r.0@) == kept_candidates(filter@, root@, walk@),
        r.1.deep_view() == content_warnings(filter@, root@, walk@),
{
    let mut kept: Vec<Candidate> = Vec::new();
    let mut warnings: Vec<String> = Vec::new();
    let mut i: usize = 0;
    while i < walk.len()
        invariant
            i <= walk.len(),
            filter.wf(),
            candidate_paths(kept@) == kept_candidates(filter@, root@, walk@.take(i as int)),
            warnings.deep_view() == content_warnings(filter@, root@, walk@.take(i as int)),
        decreases walk.len() - i,
    {
        let ghost pre = walk@.take(i as int);
        assert(walk@.take(i + 1).drop_last() == pre);
        assert(walk@.take(i + 1).last() == walk@[i as int]);
        match &walk[i] {
            WalkEntry::Failed { error } => {
                let mut w = String::from_str("[WARNING] Failed while scanning content: ");
                push_str(&mut w, error.as_str());
                push_warning(&mut warnings, w);
            },
            WalkEntry::Found { path, is_output, is_dir, link } => {
                match content_entry(filter, root, path.as_str(), *is_output, *is_dir, link) {
                    EntryAction::Skip => {},
                    EntryAction::Keep(c) => {
                        let ghost before = kept@;
                        kept.push(c);
                        assert(candidate_paths(kept@) =~= candidate_paths(before).push(
                            (path@, relative_to(path@, root@)),
                        ));
                    },
                    EntryAction::OutsideRoot { rel_path, target } => {
                        let mut w = String::from_str("[WARNING] Skipping symlink outside scan root: ");
                        push_str(&mut w, rel_path.as_str());
                        push_str(&mut w, " -> ");
                        push_str(&mut w, target.as_str());
                        push_warning(&mut warnings, w);
                    },
                    EntryAction::UnresolvedLink { rel_path, error } => {
                        let mut w = String::from_str("[WARNING] Skipping unreadable symlink ");
                        push_str(&mut w, rel_path.as_str());
                        push_str(&mut w, ": ");
                        push_str(&mut w, error.as_str());
                        push_warning(&mut warnings, w);
                    },
                }
            },
        }
        i = i + 1;
    }
    assert(walk@.take(walk.len() as int) == walk@);
    (kept, warnings)
}

proof fn lemma_content_warnings_len(m: FilterModel, root: Seq<char>, es: Seq<WalkEntry>)
    ensures
        content_warnings(m, root, es).len() <= es.len(),
    decreases es.len(),
{
    if es.len() > 0 {
        lemma_content_warnings_len(m, root, es.drop_last());
    }
}

proof fn lemma_tree_warnings_len(es: Seq<WalkEntry>)
    ensures
        tree_warnings(es).len() <= es.len(),
    decreases es.len(),
{
    if es.len() > 0 {
        lemma_tree_warnings_len(es.drop_last());
    }
}

/// The tree walk: the tree of the kept entries and the
/// warnings.
fn collect_tree(filter: &FileFilter, root: &str, walk: &Vec<WalkEntry>) -> (r: (Node, Vec<String>))
    requires
        filter.wf(),
    ensures
        r.0.tidy(),
        forall|q: Seq<Seq<char>>| #[trigger] kind_at(r.0, q) == walk_kind(filter@, root@, walk@, q),
        r.1.deep_view() == tree_warnings(walk@),
{
    let mut tree = Node::new(true);
    let mut warnings: Vec<String> = Vec::new();
    let mut i: usize = 0;
    assert forall|q: Seq<Seq<char>>| #[trigger] kind_at(tree, q) == walk_kind(
        filter@,
        root@,
        walk@.take(0),
        q,
    ) by {
        if q.len() > 0 {
            assert(child_named(tree.spec_children(), q[0]) is None);
        }
    }
    while i < walk.len()
        invariant
            i <= walk.len(),
            filter.wf(),
            tree.tidy(),
            forall|q: Seq<Seq<char>>| #[trigger]
                kind_at(tree, q) == walk_kind(filter@, root@, walk@.take(i as int), q),
            warnings.deep_view() == tree_warnings(walk@.take(i as int)),
        decreases walk.len() - i,
    {
        let ghost pre = walk@.take(i as int);
        assert(walk@.take(i + 1).drop_last() == pre);
        assert(walk@.take(i + 1).last() == walk@[i as int]);
        match &walk[i] {
            WalkEntry::Failed { error } => {
                let mut w = String::from_str("[WARNING] Failed while scanning tree: ");
                push_str(&mut w, error.as_str());
                push_warning(&mut warnings, w);
                assert forall|q: Seq<Seq<char>>| #[trigger] kind_at(tree, q) == walk_kind(
                    filter@,
                    root@,
                    walk@.take(i + 1),
                    q,
                ) by {}
            },
            WalkEntry::Found { path, is_output, is_dir, link } => {
                match tree_entry(filter, root, path.as_str(), *is_output) {
                    None => {
                        assert forall|q: Seq<Seq<char>>| #[trigger] kind_at(tree, q) == walk_kind(
                            filter@,
                            root@,
                            walk@.take(i + 1),
                            q,
                        ) by {}
                    },
                    Some(rel) => {
                        let ghost before = tree;
                        tree.insert_path(rel.as_str(), *is_dir);
                        assert forall|q: Seq<Seq<char>>| #[trigger] kind_at(tree, q) == walk_kind(
                            filter@,
                            root@,
                            walk@.take(i + 1),
                            q,
                        ) by {
                            assert(kind_at(before, q) == walk_kind(filter@, root@, pre, q));
                        }
                    },
                }
            },
        }
        i = i + 1;
    }
    assert(walk@.take(walk.len() as int) == walk@);
    (tree, warnings)
}

/// What a scan selects, given the scan root, the
/// absolute output path and the two walks of the root (the tree walk is
/// not looked at with `--no-tree`): the candidates ordered by relative
/// path, the drawn tree, the number of walk errors, and the warnings in
/// the order they arose. An invalid pattern fails the scan, the content's
/// first.
pub fn build_selection(
    args: &AppConfig,
    root: &str,
    output_path: &str,
    content_walk: &Vec<WalkEntry>,
    tree_walk: &Vec<WalkEntry>,
) -> (r: Result<(ScanSelection, Vec<String>), FilterError>)
    requires
        content_walk.len() + tree_walk.len() <= usize::MAX,
    ensures
        match (
            filter_model(opt_text_of(&args.includes), opt_text_of(&args.exclude), args.no_blacklist),
            filter_model(
                tree_patterns(&args.tree_include, &args.includes),
                tree_patterns(&args.tree_exclude, &args.exclude),
                args.no_blacklist,
            ),
        ) {
            (Err(p), _) => r matches Err(FilterError::InvalidGlob { pattern }) && pattern@ == p,
            (Ok(_), Err(p)) => r matches Err(FilterError::InvalidGlob { pattern }) && pattern@ == p,
            (Ok(cm), Ok(tm)) => r matches Ok((sel, warnings)) && {
                let tw = if args.no_tree {
                    Seq::<Seq<char>>::empty()
                } else {
                    tree_warnings(tree_walk@)
                };
                &&& sel.output_path@ == output_path@
                &&& candidates_sorted(sel.candidates@)
                &&& exists|v: Seq<Candidate>|
                    candidate_paths(v) == kept_candidates(cm, root@, content_walk@)
                        && sel.candidates@.to_multiset() == v.to_multiset()
                &&& warnings.deep_view() == content_warnings(cm, root@, content_walk@) + tw
                &&& sel.walk_errors == content_warnings(cm, root@, content_walk@).len() + tw.len()
                &&& args.no_tree ==> sel.tree is None
                &&& !args.no_tree ==> (sel.tree matches Some(t) && exists|n: Node|
                    n.tidy() && (forall|q: Seq<Seq<char>>| #[trigger] kind_at(n, q) == walk_kind(
                        tm,
                        root@,
                        tree_walk@,
                        q,
                    )) && t@ == tree_text(root_label(root@), n))
            },
        },
{
    let cf = match content_filter(args) {
        Ok(f) => f,
        Err(e) => return Err(e),
    };
    let tf = match tree_filter(args) {
        Ok(f) => f,
        Err(e) => return Err(e),
    };
    let (kept, mut warnings) = collect_content(&cf, root, content_walk);
    let ghost kept_v = kept@;
    let candidates = sort_candidates(kept);
    let ghost content_ws = warnings.deep_view();
    proof {
        lemma_content_warnings_len(cf@, root@, content_walk@);
        lemma_tree_warnings_len(tree_walk@);
    }
    let content_errors = warnings.len();
    let tree = if args.no_tree {
        assert(content_ws + Seq::<Seq<char>>::empty() == content_ws);
        None
    } else {
        let (node, tree_ws) = collect_tree(&tf, root, tree_walk);
        let ghost tws = tree_ws.deep_view();
        let mut j: usize = 0;
        while j < tree_ws.len()
            invariant
                j <= tree_ws.len(),
                tws == tree_ws.deep_view(),
                warnings.deep_view() == content_ws + tws.take(j as int),
            decreases tree_ws.len() - j,
        {
            let ghost before = warnings.deep_view();
            warnings.push(tree_ws[j].clone());
            assert(warnings.deep_view() =~= before.push(tws[j as int]));
            assert(tws.take(j + 1) =~= tws.take(j as int).push(tws[j as int]));
            j = j + 1;
        }
        assert(tws.take(tree_ws.len() as int) == tws);
        let drawn = draw_tree(root, &node);
        Some(drawn)
    };
    let walk_errors = warnings.len();
    Ok(
        (
            ScanSelection {
                output_path: output_path.to_owned(),
                tree,
                candidates,
                walk_errors,
            },
            warnings,
        ),
    )
}

// ----------------------------------------------------------------------------
// Laws of a scan
// ----------------------------------------------------------------------------

/// A character that cannot end a `path="…"` attribute or its line.
pub open spec fn attribute_safe(c: char) -> bool {
    c != '"' && c != '<' && c != '>' && c != '\n' && c != '\r'
}

proof fn lemma_hex_char_safe(d: nat)
    requires
        d < 16,
    ensures
        attribute_safe(hex_char(d)),
{
    let c = hex_char(d);
    if d < 10 {
        assert(c as u32 == d + 48);
    } else {
        assert(c as u32 == d + 55);
    }
}

proof fn lemma_hex_upper_safe(n: nat)
    ensures
        forall|i: int| 0 <= i < hex_upper(n).len() ==> attribute_safe(#[trigger] hex_upper(n)[i]),
    decreases n,
{
    if n >= 16 {
        lemma_hex_upper_safe(n / 16);
        lemma_hex_char_safe(n % 16);
        let a = hex_upper(n / 16);
        assert forall|i: int| 0 <= i < hex_upper(n).len() implies attribute_safe(
            #[trigger] hex_upper(n)[i],
        ) by {
            if i < a.len() {
                assert(hex_upper(n)[i] == a[i]);
            }
        }
    } else {
        lemma_hex_char_safe(n);
    }
}

proof fn lemma_escape_char_safe(c: char)
    ensures
        forall|i: int| 0 <= i < escape_char(c).len() ==> attribute_safe(#[trigger] escape_char(c)[i]),
{
    reveal_strlit("&amp;");
    reveal_strlit("&lt;");
    reveal_strlit("&gt;");
    reveal_strlit("&quot;");
    reveal_strlit("\\n");
    reveal_strlit("\\r");
    reveal_strlit("\\t");
    reveal_strlit("\\u{");
    reveal_strlit("}");
    if !(c == '&' || c == '<' || c == '>' || c == '"' || c == '\n' || c == '\r' || c == '\t')
        && is_control(c) {
        let h = hex_upper((c as u32) as nat);
        lemma_hex_upper_safe((c as u32) as nat);
        let e = "\\u{"@ + h + "}"@;
        assert forall|i: int| 0 <= i < e.len() implies attribute_safe(#[trigger] e[i]) by {
            if 3 <= i < 3 + h.len() {
                assert(e[i] == h[i - 3]);
            }
        }
    }
}

/// An escaped path holds no `"`, `<`, `>` or line break, so it cannot end
/// the attribute or the line it is written in.
pub proof fn law_escaped_path_has_no_delimiters(s: Seq<char>)
    ensures
        forall|i: int| 0 <= i < escape_text(s).len() ==> attribute_safe(#[trigger] escape_text(s)[i]),
    decreases s.len(),
{
    if s.len() > 0 {
        law_escaped_path_has_no_delimiters(s.drop_last());
        lemma_escape_char_safe(s.last());
        let a = escape_text(s.drop_last());
        let b = escape_char(s.last());
        assert forall|i: int| 0 <= i < escape_text(s).len() implies attribute_safe(
            #[trigger] escape_text(s)[i],
        ) by {
            if i < a.len() {
                assert(escape_text(s)[i] == a[i]);
            } else {
                assert(escape_text(s)[i] == b[i - a.len()]);
            }
        }
    }
}

/// The current output file is never a content candidate nor a tree entry,
/// whatever the patterns and the blacklist say.
pub proof fn law_output_file_never_selected(m: FilterModel, root: Seq<char>, e: WalkEntry)
    requires
        e matches WalkEntry::Found { is_output, .. } && is_output,
    ensures
        content_model(m, root, e) is Skip,
        tree_model(m, root, e) is None,
{
}

/// A link whose target lies outside the scan root is never a content
/// candidate: its target is not read.
pub proof fn law_outside_link_content_never_read(m: FilterModel, root: Seq<char>, e: WalkEntry)
    requires
        e matches WalkEntry::Found { link: LinkTarget::Target(t), .. } && strip_prefix(t@, root)
            is None,
    ensures
        !(content_model(m, root, e) is Keep),
{
}

/// A content candidate is an entry that is not the output file, not a
/// directory, and that the filter keeps; its paths are the entry's.
pub proof fn law_candidates_pass_the_filter(m: FilterModel, root: Seq<char>, e: WalkEntry)
    requires
        content_model(m, root, e) is Keep,
    ensures
        e matches WalkEntry::Found { path, is_output, is_dir, .. } && !is_output && !is_dir
            && filter_verdict(m, relative_to(path@, root)) is Included && content_model(m, root, e)
            == EntryModel::Keep(path@, relative_to(path@, root)),
{
}

/// A character that is written into a `path="…"` attribute as itself:
/// not `&`, `<`, `>` or `"`, and not a control character (U+0000 to
/// U+001F, U+007F to U+009F).
pub open spec fn plain_char(c: char) -> bool {
    &&& c != '&'
    &&& c != '<'
    &&& c != '>'
    &&& c != '"'
    &&& !((c as u32) <= 0x1f)
    &&& !(0x7f <= (c as u32) && (c as u32) <= 0x9f)
}

/// Escaping leaves every other character, the space included, as it is.
pub proof fn law_plain_characters_are_kept(c: char)
    requires
        c != '&' && c != '<' && c != '>' && c != '"',
        !((c as u32) <= 0x1f),
        !(0x7f <= (c as u32) && (c as u32) <= 0x9f),
    ensures
        escape_char(c) == seq![c],
{
    assert(c != '\n' && c != '\r' && c != '\t');
}

/// A path made only of such characters is written unchanged.
pub proof fn law_plain_paths_are_kept(s: Seq<char>)
    requires
        forall|i: int| 0 <= i < s.len() ==> plain_char(#[trigger] s[i]),
    ensures
        escape_text(s) == s,
    decreases s.len(),
{
    if s.len() == 0 {
        assert(s =~= Seq::<char>::empty());
    } else {
        assert forall|i: int| 0 <= i < s.drop_last().len() implies plain_char(
            #[trigger] s.drop_last()[i],
        ) by {
            assert(s.drop_last()[i] == s[i]);
        }
        law_plain_paths_are_kept(s.drop_last());
        law_plain_characters_are_kept(s.last());
        assert(s.drop_last() + seq![s.last()] =~= s);
    }
}

} // verus!
