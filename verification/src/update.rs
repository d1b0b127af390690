//! Deciding whether a release is newer than the running version, and the
//! text that fetching and installing a release runs.

use vstd::prelude::*;
use crate::path::{components, components_of, join_components, join_path, join_path_of};
use crate::scan::{decode_lossy, utf8_lossy_text};
use crate::text::{
    chars_of, decimal, join, push_char, push_decimal, push_str, same_text, seqs_of, split,
    split_chars, string_from_chars, trim, trim_chars,
};

verus! {

// ----------------------------------------------------------------------------
// Version numbers
// ----------------------------------------------------------------------------

/// `s` without any leading `c` (`str::trim_start_matches` with a char).
pub open spec fn strip_leading(s: Seq<char>, c: char) -> Seq<char>
    decreases s.len(),
{
    if s.len() > 0 && s[0] == c {
        strip_leading(s.skip(1), c)
    } else {
        s
    }
}

/// A version tag without surrounding white space and without a leading
/// run of `v`, then of `V`.
pub open spec fn normalized(v: Seq<char>) -> Seq<char> {
    strip_leading(strip_leading(trim(v), 'v'), 'V')
}

/// Whether every character is an ASCII digit.
pub open spec fn all_digits(s: Seq<char>) -> bool {
    forall|i: int| 0 <= i < s.len() ==> '0' <= #[trigger] s[i] <= '9'
}

/// The number that a run of ASCII digits writes in decimal.
pub open spec fn digits_value(s: Seq<char>) -> nat
    decreases s.len(),
{
    if s.len() == 0 {
        0
    } else {
        digits_value(s.drop_last()) * 10 + (s.last() as nat - '0' as nat) as nat
    }
}

/// `u64`'s `FromStr`: an optional `+`, then one or more ASCII digits whose
/// value fits in 64 bits.
pub open spec fn parse_u64(s: Seq<char>) -> Option<u64> {
    let d = if s.len() > 0 && s[0] == '+' {
        s.skip(1)
    } else {
        s
    };
    if d.len() > 0 && all_digits(d) && digits_value(d) <= u64::MAX {
        Some(digits_value(d) as u64)
    } else {
        None
    }
}

/// The numbers of all parts, or `None` where one is not a number.
pub open spec fn parse_parts(parts: Seq<Seq<char>>) -> Option<Seq<u64>>
    decreases parts.len(),
{
    if parts.len() == 0 {
        Some(Seq::empty())
    } else {
        match (parse_parts(parts.drop_last()), parse_u64(parts.last())) {
            (Some(a), Some(x)) => Some(a.push(x)),
            _ => None,
        }
    }
}

/// The numbers of a version tag: normalized, cut at the first `-`, split
/// at each `.`; `None` where a part is not a number.
pub open spec fn version_numbers(v: Seq<char>) -> Option<Seq<u64>> {
    parse_parts(split(split(normalized(v), '-')[0], '.'))
}

/// Lexicographic order of number sequences, as `Vec<u64>` compares: the
/// first differing number decides, and a proper prefix is smaller.
pub open spec fn numbers_gt(a: Seq<u64>, b: Seq<u64>) -> bool
    decreases a.len(),
{
    if a.len() == 0 {
        false
    } else if b.len() == 0 {
        true
    } else if a[0] != b[0] {
        a[0] > b[0]
    } else {
        numbers_gt(a.skip(1), b.skip(1))
    }
}

/// Whether `latest` is newer than `current`: by their numbers where both
/// have them, else whenever their normalized texts differ.
pub open spec fn newer(latest: Seq<char>, current: Seq<char>) -> bool {
    match (version_numbers(latest), version_numbers(current)) {
        (Some(l), Some(c)) => numbers_gt(l, c),
        _ => normalized(latest) != normalized(current),
    }
}

fn strip_leading_chars(s: &Vec<char>, c: char) -> (r: Vec<char>)
    ensures
        r@ == strip_leading(s@, c),
{
    let n = s.len();
    let mut i: usize = 0;
    assert(s@.skip(0) == s@);
    while i < n && s[i] == c
        invariant
            i <= n,
            n == s.len(),
            strip_leading(s@, c) == strip_leading(s@.skip(i as int), c),
        decreases n - i,
    {
        assert(s@.skip(i as int).skip(1) == s@.skip(i + 1));
        i = i + 1;
    }
    let mut r: Vec<char> = Vec::new();
    let mut j: usize = i;
    while j < n
        invariant
            i <= j <= n,
            n == s.len(),
            r@ == s@.subrange(i as int, j as int),
        decreases n - j,
    {
        r.push(s[j]);
        j = j + 1;
    }
    assert(r@ == s@.skip(i as int));
    r
}

fn normalized_chars(value: &str) -> (r: Vec<char>)
    ensures
        r@ == normalized(value@),
{
    let t = trim_chars(&chars_of(value));
    let a = strip_leading_chars(&t, 'v');
    strip_leading_chars(&a, 'V')
}

/// A version tag normalized for comparison.
pub fn normalize_version(value: &str) -> (r: String)
    ensures
        r@ == normalized(value@),
{
    string_from_chars(&normalized_chars(value))
}

proof fn lemma_digits_value_prefix(s: Seq<char>, k: int)
    requires
        0 <= k <= s.len(),
    ensures
        digits_value(s.take(k)) <= digits_value(s),
    decreases s.len(),
{
    if k < s.len() {
        assert(s.drop_last().take(k) == s.take(k));
        lemma_digits_value_prefix(s.drop_last(), k);
    } else {
        assert(s.take(k) == s);
    }
}

/// `u64::from_str` on a run of characters.
fn parse_u64_chars(s: &Vec<char>) -> (r: Option<u64>)
    ensures
        r == parse_u64(s@),
{
    let n = s.len();
    let start: usize = if n > 0 && s[0] == '+' {
        1
    } else {
        0
    };
    let ghost d = if s@.len() > 0 && s@[0] == '+' {
        s@.skip(1)
    } else {
        s@
    };
    assert(d == s@.skip(start as int));
    if start == n {
        return None;
    }
    let mut v: u64 = 0;
    let mut i: usize = start;
    while i < n
        invariant
            start <= i <= n,
            n == s.len(),
            d == s@.skip(start as int),
            d == (if s@.len() > 0 && s@[0] == '+' {
                s@.skip(1)
            } else {
                s@
            }),
            d.len() > 0,
            all_digits(d.take(i - start)),
            v == digits_value(d.take(i - start)),
        decreases n - i,
    {
        let c = s[i];
        let ghost k = i - start;
        assert(d[k] == c);
        if !('0' <= c && c <= '9') {
            assert(!all_digits(d));
            assert(parse_u64(s@) is None);
            return None;
        }
        let digit = (c as u32 - '0' as u32) as u64;
        assert(d.take(k + 1).drop_last() == d.take(k));
        assert(d.take(k + 1).last() == c);
        assert(digits_value(d.take(k + 1)) == v * 10 + digit);
        proof {
            lemma_digits_value_prefix(d, k + 1);
        }
        match v.checked_mul(10) {
            None => {
                assert(parse_u64(s@) is None);
                return None;
            },
            Some(m) => match m.checked_add(digit) {
                None => {
                    assert(parse_u64(s@) is None);
                    return None;
                },
                Some(w) => {
                    v = w;
                },
            },
        }
        i = i + 1;
    }
    assert(d.take(n - start) == d);
    Some(v)
}

/// The numbers of a version tag.
pub fn parse_version(value: &str) -> (r: Option<Vec<u64>>)
    ensures
        match r {
            Some(v) => version_numbers(value@) == Some(v@),
            None => version_numbers(value@) is None,
        },
{
    let norm = normalized_chars(value);
    let halves = split_chars(&norm, '-');
    let parts = split_chars(&halves[0], '.');
    assert(seqs_of(halves@)[0] == halves@[0]@);
    let ghost ps = seqs_of(parts@);
    let mut out: Vec<u64> = Vec::new();
    let mut i: usize = 0;
    while i < parts.len()
        invariant
            i <= parts.len(),
            ps == seqs_of(parts@),
            ps == split(split(normalized(value@), '-')[0], '.'),
            parse_parts(ps.take(i as int)) == Some(out@),
        decreases parts.len() - i,
    {
        assert(ps.take(i + 1).drop_last() == ps.take(i as int));
        assert(ps.take(i + 1).last() == parts@[i as int]@);
        match parse_u64_chars(&parts[i]) {
            None => {
                proof {
                    lemma_parse_parts_prefix(ps, i + 1);
                }
                return None;
            },
            Some(x) => {
                out.push(x);
            },
        }
        i = i + 1;
    }
    assert(ps.take(parts.len() as int) == ps);
    Some(out)
}

proof fn lemma_parse_parts_prefix(ps: Seq<Seq<char>>, k: int)
    requires
        0 <= k <= ps.len(),
        parse_parts(ps.take(k)) is None,
    ensures
        parse_parts(ps) is None,
    decreases ps.len(),
{
    if k < ps.len() {
        assert(ps.drop_last().take(k) == ps.take(k));
        lemma_parse_parts_prefix(ps.drop_last(), k);
    } else {
        assert(ps.take(k) == ps);
    }
}

fn numbers_greater(a: &Vec<u64>, b: &Vec<u64>) -> (r: bool)
    ensures
        r == numbers_gt(a@, b@),
{
    let mut i: usize = 0;
    assert(a@.skip(0) == a@);
    assert(b@.skip(0) == b@);
    while i < a.len() && i < b.len() && a[i] == b[i]
        invariant
            i <= a.len(),
            i <= b.len(),
            numbers_gt(a@, b@) == numbers_gt(a@.skip(i as int), b@.skip(i as int)),
        decreases a.len() - i,
    {
        assert(a@.skip(i as int).skip(1) == a@.skip(i + 1));
        assert(b@.skip(i as int).skip(1) == b@.skip(i + 1));
        i = i + 1;
    }
    if i == a.len() {
        false
    } else if i == b.len() {
        true
    } else {
        a[i] > b[i]
    }
}

fn same_chars(a: &Vec<char>, b: &Vec<char>) -> (r: bool)
    ensures
        r == (a@ == b@),
{
    if a.len() != b.len() {
        return false;
    }
    let mut i: usize = 0;
    while i < a.len()
        invariant
            i <= a.len(),
            a.len() == b.len(),
            a@.take(i as int) == b@.take(i as int),
        decreases a.len() - i,
    {
        if a[i] != b[i] {
            assert(a@[i as int] != b@[i as int]);
            return false;
        }
        assert(a@.take(i + 1) == a@.take(i as int).push(a@[i as int]));
        assert(b@.take(i + 1) == b@.take(i as int).push(b@[i as int]));
        i = i + 1;
    }
    assert(a@.take(a.len() as int) == a@);
    assert(b@.take(b.len() as int) == b@);
    true
}

/// Whether the release `latest` is newer than the running `current`.
pub fn version_is_newer(latest: &str, current: &str) -> (r: bool)
    ensures
        r == newer(latest@, current@),
{
    match (parse_version(latest), parse_version(current)) {
        (Some(l), Some(c)) => numbers_greater(&l, &c),
        _ => !same_chars(&normalized_chars(latest), &normalized_chars(current)),
    }
}

proof fn lemma_numbers_gt_irreflexive(a: Seq<u64>)
    ensures
        !numbers_gt(a, a),
    decreases a.len(),
{
    if a.len() > 0 {
        lemma_numbers_gt_irreflexive(a.skip(1));
    }
}

proof fn lemma_numbers_gt_asymmetric(a: Seq<u64>, b: Seq<u64>)
    ensures
        numbers_gt(a, b) ==> !numbers_gt(b, a),
    decreases a.len(),
{
    if a.len() > 0 && b.len() > 0 && a[0] == b[0] {
        lemma_numbers_gt_asymmetric(a.skip(1), b.skip(1));
    }
}

/// `x` is greater than `y` at position `i`: they agree before `i`, and at
/// `i` either `y` has ended or `x`'s number is the larger.
pub open spec fn greater_at(x: Seq<u64>, y: Seq<u64>, i: int) -> bool {
    &&& 0 <= i < x.len()
    &&& forall|j: int| 0 <= j < i ==> j < y.len() && #[trigger] x[j] == y[j]
    &&& (i == y.len() || x[i] > y[i])
}

proof fn lemma_numbers_gt_is_lexicographic(x: Seq<u64>, y: Seq<u64>)
    ensures
        numbers_gt(x, y) <==> exists|i: int| #[trigger] greater_at(x, y, i),
    decreases x.len(),
{
    if x.len() == 0 {
    } else if y.len() == 0 {
        assert(greater_at(x, y, 0));
    } else if x[0] != y[0] {
        if x[0] > y[0] {
            assert(greater_at(x, y, 0));
        }
        if exists|i: int| #[trigger] greater_at(x, y, i) {
            let i = choose|i: int| #[trigger] greater_at(x, y, i);
            if i > 0 {
                assert(x[0] == y[0]);
            }
        }
    } else {
        let xs = x.skip(1);
        let ys = y.skip(1);
        assert(xs.len() == x.len() - 1);
        assert(ys.len() == y.len() - 1);
        lemma_numbers_gt_is_lexicographic(xs, ys);
        if exists|i: int| #[trigger] greater_at(xs, ys, i) {
            let i = choose|i: int| #[trigger] greater_at(xs, ys, i);
            assert forall|j: int| 0 <= j < i + 1 implies j < y.len() && #[trigger] x[j] == y[j] by {
                if j > 0 {
                    assert(xs[j - 1] == ys[j - 1]);
                }
            }
            assert(xs[i] == x[i + 1]);
            if i < ys.len() {
                assert(ys[i] == y[i + 1]);
                assert(x[i + 1] > y[i + 1]);
            } else {
                if i > ys.len() {
                    assert(xs[ys.len() as int] == ys[ys.len() as int]);
                }
                assert(i + 1 == y.len());
            }
            assert(greater_at(x, y, i + 1));
        }
        if exists|i: int| #[trigger] greater_at(x, y, i) {
            let i = choose|i: int| #[trigger] greater_at(x, y, i);
            if i == 0 {
                assert(x[0] > y[0]);
            }
            assert forall|j: int| 0 <= j < i - 1 implies j < ys.len() && #[trigger] xs[j] == ys[j] by {
                assert(x[j + 1] == y[j + 1]);
            }
            assert(xs[i - 1] == x[i]);
            if i < y.len() {
                assert(ys[i - 1] == y[i]);
                assert(xs[i - 1] > ys[i - 1]);
            } else {
                if i > y.len() {
                    assert(x[y.len() as int] == y[y.len() as int]);
                }
                assert(i - 1 == ys.len());
            }
            assert(greater_at(xs, ys, i - 1));
        }
    }
}

/// Where both tags are version numbers, a release is newer exactly when
/// its numbers are greater in order: at the first place where they differ
/// its number is the larger, or the running version's numbers end first.
pub proof fn law_newer_compares_numbers_in_order(latest: Seq<char>, current: Seq<char>)
    requires
        version_numbers(latest) is Some,
        version_numbers(current) is Some,
    ensures
        newer(latest, current) <==> exists|i: int|
            #[trigger] greater_at(version_numbers(latest)->0, version_numbers(current)->0, i),
{
    lemma_numbers_gt_is_lexicographic(version_numbers(latest)->0, version_numbers(current)->0);
}

/// Where both tags are version numbers, only the numbers decide: tags
/// written differently with the same numbers (`v1.10.0`, `1.010.0`) give
/// the same answer.
pub proof fn law_only_numbers_decide(a: Seq<char>, b: Seq<char>, a2: Seq<char>, b2: Seq<char>)
    requires
        version_numbers(a) is Some,
        version_numbers(b) is Some,
        version_numbers(a2) == version_numbers(a),
        version_numbers(b2) == version_numbers(b),
    ensures
        newer(a, b) == newer(a2, b2),
{
}

/// No version is newer than itself.
pub proof fn law_version_not_newer_than_itself(v: Seq<char>)
    ensures
        !newer(v, v),
{
    if let Some(n) = version_numbers(v) {
        lemma_numbers_gt_irreflexive(n);
    }
}

/// Of two versions that both have numbers, at most one is newer than the
/// other.
pub proof fn law_newer_is_asymmetric(a: Seq<char>, b: Seq<char>)
    requires
        version_numbers(a) is Some,
        version_numbers(b) is Some,
    ensures
        newer(a, b) ==> !newer(b, a),
{
    lemma_numbers_gt_asymmetric(version_numbers(a)->0, version_numbers(b)->0);
}

// ----------------------------------------------------------------------------
// Failures
// ----------------------------------------------------------------------------

/// Why an update cannot go on.
#[derive(Debug, PartialEq, Eq)]
pub enum UpdateError {
    /// No release asset is built for this operating system.
    UnsupportedOs { os: String },
    /// The executable's path has no parent directory to download into.
    NoParentDirectory,
    /// A command exited with a failure status.
    CommandFailed { context: String, status: String },
    /// A command succeeded but printed nothing.
    EmptyResponse { context: String },
}

/// The message shown for a failure.
pub open spec fn update_message(e: UpdateError) -> Seq<char> {
    match e {
        UpdateError::UnsupportedOs { os } => "Unsupported OS for self-update: "@ + os@,
        UpdateError::NoParentDirectory => "Executable has no parent directory"@,
        UpdateError::CommandFailed { context, status } => context@ + " (exit code: "@ + status@
            + ")"@,
        UpdateError::EmptyResponse { context } => context@ + " returned an empty response"@,
    }
}

impl UpdateError {
    /// The message shown for the failure.
    pub fn message(&self) -> (r: String)
        ensures
            r@ == update_message(*self),
    {
        match self {
            UpdateError::UnsupportedOs { os } => {
                let mut r = String::from_str("Unsupported OS for self-update: ");
                push_str(&mut r, os.as_str());
                r
            },
            UpdateError::NoParentDirectory => String::from_str(
                "Executable has no parent directory",
            ),
            UpdateError::CommandFailed { context, status } => {
                let mut r = context.clone();
                push_str(&mut r, " (exit code: ");
                push_str(&mut r, status.as_str());
                push_str(&mut r, ")");
                r
            },
            UpdateError::EmptyResponse { context } => {
                let mut r = context.clone();
                push_str(&mut r, " returned an empty response");
                r
            },
        }
    }
}

// ----------------------------------------------------------------------------
// Release assets and command output
// ----------------------------------------------------------------------------

/// The release asset built for an operating system, by `std::env::consts::OS`.
pub open spec fn asset_for(os: Seq<char>) -> Option<Seq<char>> {
    if os == "windows"@ {
        Some("onesource.exe"@)
    } else if os == "linux"@ {
        Some("onesource-linux"@)
    } else if os == "macos"@ {
        Some("onesource-macos"@)
    } else {
        None
    }
}

/// The release asset for the operating system `os`.
pub fn asset_name(os: &str) -> (r: Result<&'static str, UpdateError>)
    ensures
        match r {
            Ok(a) => asset_for(os@) == Some(a@),
            Err(e) => asset_for(os@) is None && (e matches UpdateError::UnsupportedOs { os: o }
                && o@ == os@),
        },
{
    if same_text(os, "windows") {
        Ok("onesource.exe")
    } else if same_text(os, "linux") {
        Ok("onesource-linux")
    } else if same_text(os, "macos") {
        Ok("onesource-macos")
    } else {
        Err(UpdateError::UnsupportedOs { os: os.to_owned() })
    }
}

/// What a command that prints one value gave:
/// a failure status is an error, else the printed text, decoded leniently
/// and trimmed, unless that is empty.
pub fn parse_command_output(success: bool, status: &str, stdout: &Vec<u8>, error_context: &str) -> (r:
    Result<String, UpdateError>)
    ensures
        !success ==> (r matches Err(UpdateError::CommandFailed { context, status: st })
            && context@ == error_context@ && st@ == status@),
        success && trim(utf8_lossy_text(stdout@)).len() == 0 ==> (r matches Err(
            UpdateError::EmptyResponse { context },
        ) && context@ == error_context@),
        success && trim(utf8_lossy_text(stdout@)).len() > 0 ==> (r matches Ok(v) && v@ == trim(
            utf8_lossy_text(stdout@),
        )),
{
    if !success {
        return Err(
            UpdateError::CommandFailed { context: error_context.to_owned(), status: status.to_owned() },
        );
    }
    let text = decode_lossy(stdout);
    let value = trim_chars(&chars_of(text.as_str()));
    if value.len() == 0 {
        Err(UpdateError::EmptyResponse { context: error_context.to_owned() })
    } else {
        Ok(string_from_chars(&value))
    }
}

// ----------------------------------------------------------------------------
// Where a release is downloaded to
// ----------------------------------------------------------------------------

/// `Path::parent` by components: all but the last, or `None` for an empty
/// path or the root alone.
pub open spec fn parent_parts(p: Seq<char>) -> Option<Seq<Seq<char>>> {
    let c = components(p);
    if c.len() == 0 || c.last() == seq!['/'] {
        None
    } else {
        Some(c.drop_last())
    }
}

/// The text of a path made of components.
pub open spec fn parts_text(c: Seq<Seq<char>>) -> Seq<char> {
    if c.len() > 0 && c[0] == seq!['/'] {
        seq!['/'] + join(c.skip(1), seq!['/'])
    } else {
        join(c, seq!['/'])
    }
}

/// The name of the file a release is downloaded to.
pub open spec fn download_name(pid: u32, windows: bool) -> Seq<char> {
    "onesource-update-"@ + decimal(pid as nat) + if windows {
        ".exe"@
    } else {
        Seq::empty()
    }
}

/// The download path next to the executable: in
/// the executable's directory, named after the process id.
pub fn temp_download_path(current_exe: &str, pid: u32, windows: bool) -> (r: Result<
    String,
    UpdateError,
>)
    ensures
        match r {
            Ok(p) => parent_parts(current_exe@) matches Some(c) && p@ == join_path(
                parts_text(c),
                download_name(pid, windows),
            ),
            Err(e) => parent_parts(current_exe@) is None && e == UpdateError::NoParentDirectory,
        },
{
    let mut comps = components_of(&chars_of(current_exe));
    let n = comps.len();
    if n == 0 {
        return Err(UpdateError::NoParentDirectory);
    }
    let last_is_root = comps[n - 1].len() == 1 && comps[n - 1][0] == '/';
    proof {
        if seqs_of(comps@).last() == seq!['/'] {
            assert(comps@[n - 1]@ == seq!['/']);
        }
        if last_is_root {
            assert(comps@[n - 1]@ == seq!['/']);
        }
    }
    if last_is_root {
        return Err(UpdateError::NoParentDirectory);
    }
    let ghost before = seqs_of(comps@);
    comps.pop();
    assert(seqs_of(comps@) == before.drop_last());
    let m = comps.len();
    let starts_at_root = m > 0 && comps[0].len() == 1 && comps[0][0] == '/';
    proof {
        if m > 0 {
            if starts_at_root {
                assert(comps@[0]@ == seq!['/']);
            }
            if seqs_of(comps@)[0] == seq!['/'] {
                assert(comps@[0]@ == seq!['/']);
            }
        }
    }
    let parent = if starts_at_root {
        let mut t = String::from_str("/");
        proof {
            reveal_strlit("/");
        }
        let rest = join_components(&comps, 1);
        push_str(&mut t, rest.as_str());
        t
    } else {
        join_components(&comps, 0)
    };
    proof {
        assert(seqs_of(comps@).skip(0) == seqs_of(comps@));
    }
    let mut name = String::from_str("onesource-update-");
    push_decimal(&mut name, pid as u64);
    if windows {
        push_str(&mut name, ".exe");
    } else {
        assert(name@ + Seq::<char>::empty() == name@);
    }
    Ok(join_path_of(parent.as_str(), name.as_str()))
}

// ----------------------------------------------------------------------------
// Quoting and scripts
// ----------------------------------------------------------------------------

/// `s` with every `'` replaced by `rep` (`str::replace`).
pub open spec fn replace_quote(s: Seq<char>, rep: Seq<char>) -> Seq<char>
    decreases s.len(),
{
    if s.len() == 0 {
        Seq::empty()
    } else {
        replace_quote(s.drop_last(), rep) + if s.last() == '\'' {
            rep
        } else {
            seq![s.last()]
        }
    }
}

fn replace_quotes(s: &str, rep: &str) -> (r: String)
    ensures
        r@ == replace_quote(s@, rep@),
{
    let cs = chars_of(s);
    let mut r = String::new();
    let mut i: usize = 0;
    while i < cs.len()
        invariant
            i <= cs.len(),
            cs@ == s@,
            r@ == replace_quote(cs@.take(i as int), rep@),
        decreases cs.len() - i,
    {
        assert(cs@.take(i + 1).drop_last() == cs@.take(i as int));
        assert(cs@.take(i + 1).last() == cs@[i as int]);
        if cs[i] == '\'' {
            push_str(&mut r, rep);
        } else {
            push_char(&mut r, cs[i]);
            assert(r@ == replace_quote(cs@.take(i as int), rep@) + seq![cs@[i as int]]);
        }
        i = i + 1;
    }
    assert(cs@.take(cs.len() as int) == cs@);
    r
}

/// Quotes text for a single-quoted POSIX shell word: each
/// `'` becomes `'\''`.
pub fn shell_quote(value: &str) -> (r: String)
    ensures
        r@ == replace_quote(value@, "'\\''"@),
{
    replace_quotes(value, "'\\''")
}

/// Quotes text for a single-quoted PowerShell string: each
/// `'` becomes `''`.
pub fn ps_quote(value: &str) -> (r: String)
    ensures
        r@ == replace_quote(value@, "''"@),
{
    replace_quotes(value, "''")
}

/// Where the latest release is described.
pub open spec fn release_api() -> Seq<char> {
    "https://api.github.com/repos/TW-RF54732/onesource/releases/latest"@
}

/// The address that describes the latest release.
pub fn release_api_url() -> (r: String)
    ensures
        r@ == release_api(),
{
    String::from_str("https://api.github.com/repos/TW-RF54732/onesource/releases/latest")
}

/// The shell command that prints the tag of the latest release.
pub open spec fn fetch_script_text() -> Seq<char> {
    "curl -fsSL '"@ + replace_quote(release_api(), "'\\''"@)
        + "' | grep '\"tag_name\"' | cut -d '\"' -f 4 | head -n 1"@
}

/// The shell command that prints the tag of the latest release (the
/// script of `fetch_latest_version`).
pub fn fetch_script() -> (r: String)
    ensures
        r@ == fetch_script_text(),
{
    let api = release_api_url();
    let mut r = String::from_str("curl -fsSL '");
    push_str(&mut r, shell_quote(api.as_str()).as_str());
    push_str(&mut r, "' | grep '\"tag_name\"' | cut -d '\"' -f 4 | head -n 1");
    r
}

/// The shell script that downloads the asset to `output` and makes it
/// executable.
pub open spec fn download_script_text(asset: Seq<char>, output: Seq<char>) -> Seq<char> {
    let q = "'\\''"@;
    "set -e\nurl=$(curl -fsSL '"@ + release_api() + "' | grep '"@ + replace_quote(
        "browser_download_url.*"@ + asset,
        q,
    ) + "' | cut -d '\"' -f 4 | head -n 1)\nif [ -z \"$url\" ]; then echo 'Could not find asset: "@
        + asset + "' >&2; exit 1; fi\ncurl -fL -o '"@ + replace_quote(output, q) + "' \"$url\"\nchmod +x '"@
        + replace_quote(output, q) + "'"@
}

/// The shell script that downloads the asset (the script of
/// `download_latest_asset`).
pub fn download_script(asset_name: &str, output: &str) -> (r: String)
    ensures
        r@ == download_script_text(asset_name@, output@),
{
    let api = release_api_url();
    let mut pattern = String::from_str("browser_download_url.*");
    push_str(&mut pattern, asset_name);
    let quoted_output = shell_quote(output);
    let mut r = String::from_str("set -e\nurl=$(curl -fsSL '");
    push_str(&mut r, api.as_str());
    push_str(&mut r, "' | grep '");
    push_str(&mut r, shell_quote(pattern.as_str()).as_str());
    push_str(
        &mut r,
        "' | cut -d '\"' -f 4 | head -n 1)\nif [ -z \"$url\" ]; then echo 'Could not find asset: ",
    );
    push_str(&mut r, asset_name);
    push_str(&mut r, "' >&2; exit 1; fi\ncurl -fL -o '");
    push_str(&mut r, quoted_output.as_str());
    push_str(&mut r, "' \"$url\"\nchmod +x '");
    push_str(&mut r, quoted_output.as_str());
    push_str(&mut r, "'");
    r
}

/// The PowerShell script that prints the tag of the latest release.
pub open spec fn fetch_script_windows_text() -> Seq<char> {
    "\n$ErrorActionPreference = 'Stop'\n$release = Invoke-RestMethod -Uri '"@ + release_api()
        + "'\n$release.tag_name\n"@
}

/// The PowerShell script that prints the tag of the latest release (the
/// Windows script of `fetch_latest_version`).
pub fn fetch_script_windows() -> (r: String)
    ensures
        r@ == fetch_script_windows_text(),
{
    let api = release_api_url();
    let mut r = String::from_str(
        "\n$ErrorActionPreference = 'Stop'\n$release = Invoke-RestMethod -Uri '",
    );
    push_str(&mut r, api.as_str());
    push_str(&mut r, "'\n$release.tag_name\n");
    r
}

/// The PowerShell script that downloads the asset to `output`.
pub open spec fn download_script_windows_text(asset: Seq<char>, output: Seq<char>) -> Seq<char> {
    "\n$ErrorActionPreference = 'Stop'\n$ProgressPreference = 'SilentlyContinue'\n$release = Invoke-RestMethod -Uri '"@
        + release_api() + "'\n$asset = $release.assets | Where-Object { $_.name -eq '"@ + asset
        + "' } | Select-Object -First 1\nif (-not $asset) { throw \"Could not find asset: "@ + asset
        + "\" }\nInvoke-WebRequest -Uri $asset.browser_download_url -OutFile '"@ + replace_quote(
        output,
        "''"@,
    ) + "'\n"@
}

/// The PowerShell script that downloads the asset (the Windows script of
/// `download_latest_asset`).
pub fn download_script_windows(asset_name: &str, output: &str) -> (r: String)
    ensures
        r@ == download_script_windows_text(asset_name@, output@),
{
    let api = release_api_url();
    let mut r = String::from_str(
        "\n$ErrorActionPreference = 'Stop'\n$ProgressPreference = 'SilentlyContinue'\n$release = Invoke-RestMethod -Uri '",
    );
    push_str(&mut r, api.as_str());
    push_str(&mut r, "'\n$asset = $release.assets | Where-Object { $_.name -eq '");
    push_str(&mut r, asset_name);
    push_str(&mut r, "' } | Select-Object -First 1\nif (-not $asset) { throw \"Could not find asset: ");
    push_str(&mut r, asset_name);
    push_str(&mut r, "\" }\nInvoke-WebRequest -Uri $asset.browser_download_url -OutFile '");
    push_str(&mut r, ps_quote(output).as_str());
    push_str(&mut r, "'\n");
    r
}

/// The PowerShell script that waits for process `pid` to end and then
/// moves the download over the executable.
pub open spec fn replace_script_windows_text(pid: u32, downloaded: Seq<char>, target: Seq<char>) -> Seq<
    char,
> {
    "\n$ErrorActionPreference = 'Stop'\n$process = Get-Process -Id "@ + decimal(pid as nat)
        + " -ErrorAction SilentlyContinue\nif ($process) { Wait-Process -Id "@ + decimal(pid as nat)
        + " }\nMove-Item -Force -LiteralPath '"@ + replace_quote(downloaded, "''"@)
        + "' -Destination '"@ + replace_quote(target, "''"@) + "'\n"@
}

/// The PowerShell script that replaces the executable once this process
/// has ended (the script of `replace_after_exit`).
pub fn replace_script_windows(pid: u32, downloaded: &str, target: &str) -> (r: String)
    ensures
        r@ == replace_script_windows_text(pid, downloaded@, target@),
{
    let mut r = String::from_str("\n$ErrorActionPreference = 'Stop'\n$process = Get-Process -Id ");
    push_decimal(&mut r, pid as u64);
    push_str(&mut r, " -ErrorAction SilentlyContinue\nif ($process) { Wait-Process -Id ");
    push_decimal(&mut r, pid as u64);
    push_str(&mut r, " }\nMove-Item -Force -LiteralPath '");
    push_str(&mut r, ps_quote(downloaded).as_str());
    push_str(&mut r, "' -Destination '");
    push_str(&mut r, ps_quote(target).as_str());
    push_str(&mut r, "'\n");
    r
}

} // verus!
