//! Which relative paths a scan keeps: the built-in blacklist, then the
//! exclude patterns, then the include patterns.

use vstd::prelude::*;
use crate::glob::{
    glob_check, glob_is_match, glob_is_match_nocase, glob_matches, glob_matches_nocase, glob_parses,
};
use crate::path::{components, components_of, file_name, file_name_of};
use crate::seqs::{
    first_some, lemma_first_some_concat, lemma_first_some_prefix, lemma_first_some_single,
    lemma_first_some_step,
};
use crate::text::{
    ascii_lower, ascii_lower_chars, chars_eq, chars_of, contains_char, join, join_strings,
    seqs_of, split, split_chars, string_from_chars, trim, trim_chars,
};

verus! {

// ----------------------------------------------------------------------------
// The built-in blacklist
// ----------------------------------------------------------------------------

/// Path components that are never selected, compared without regard to
/// ASCII case.
pub open spec fn blacklist_components() -> Seq<Seq<char>> {
    seq![
        ".git"@, ".gitignore"@, ".env"@, ".onesourcerc"@, ".svn"@, ".hg"@, "node_modules"@,
        "__pycache__"@, "venv"@, ".venv"@, ".pytest_cache"@, ".tox"@, "target"@, ".idea"@,
        ".vscode"@, ".DS_Store"@, ".npmrc"@, ".pypirc"@, ".netrc"@, "id_rsa"@, "id_dsa"@,
        "id_ecdsa"@, "id_ed25519"@,
    ]
}

/// Globs that block a path, matched case-insensitively against the whole
/// path and against its file name.
pub open spec fn blacklist_patterns() -> Seq<Seq<char>> {
    seq![
        ".env.*"@, "credentials.json"@, "service-account*.json"@, "*.pem"@, "*.key"@, "*.p12"@,
        "*.pfx"@, "*.onesource"@, ".onesource-tmp-*"@, ".onesource-backup-*"@,
    ]
}

fn component_rules() -> (v: Vec<&'static str>)
    ensures
        v@.map_values(|s: &str| s@) == blacklist_components(),
{
    let v = vec![
        ".git", ".gitignore", ".env", ".onesourcerc", ".svn", ".hg", "node_modules", "__pycache__",
        "venv", ".venv", ".pytest_cache", ".tox", "target", ".idea", ".vscode", ".DS_Store",
        ".npmrc", ".pypirc", ".netrc", "id_rsa", "id_dsa", "id_ecdsa", "id_ed25519",
    ];
    assert(v@.map_values(|s: &str| s@) =~= blacklist_components());
    v
}

fn pattern_rules() -> (v: Vec<&'static str>)
    ensures
        v@.map_values(|s: &str| s@) == blacklist_patterns(),
{
    let v = vec![
        ".env.*", "credentials.json", "service-account*.json", "*.pem", "*.key", "*.p12", "*.pfx",
        "*.onesource", ".onesource-tmp-*", ".onesource-backup-*",
    ];
    assert(v@.map_values(|s: &str| s@) =~= blacklist_patterns());
    v
}

/// The blacklisted component rule that names `c`, if any.
pub open spec fn component_rule(c: Seq<char>) -> Option<Seq<char>> {
    first_some(
        blacklist_components(),
        |r: Seq<char>|
            if ascii_lower(c) == ascii_lower(r) {
                Some(r)
            } else {
                None
            },
    )
}

/// `\` turned into `/`.
pub open spec fn slashed(s: Seq<char>) -> Seq<char> {
    s.map_values(|c: char| if c == '\\' { '/' } else { c })
}

/// The blacklist pattern that blocks `path`, if any.
pub open spec fn pattern_rule(path: Seq<char>) -> Option<Seq<char>> {
    let name = match file_name(path) {
        Some(n) => n,
        None => Seq::<char>::empty(),
    };
    pattern_rule_named(path, name)
}

/// The first blacklist pattern that matches `path` or its file name `name`.
pub open spec fn pattern_rule_named(path: Seq<char>, name: Seq<char>) -> Option<Seq<char>> {
    first_some(
        blacklist_patterns(),
        |g: Seq<char>|
            if glob_matches_nocase(g, slashed(path)) || glob_matches_nocase(g, name) {
                Some(g)
            } else {
                None
            },
    )
}

/// The rule of the built-in blacklist that blocks `path`: the first of its
/// components that is blacklisted, else the first blacklist pattern that
/// matches it.
pub open spec fn blacklist_rule(path: Seq<char>) -> Option<Seq<char>> {
    match first_some(components(path), |c: Seq<char>| component_rule(c)) {
        Some(r) => Some(r),
        None => pattern_rule(path),
    }
}

fn component_rule_of(c: &Vec<char>) -> (r: Option<&'static str>)
    ensures
        r matches Some(s) ==> component_rule(c@) == Some(s@),
        r is None ==> component_rule(c@) is None,
{
    let rules = component_rules();
    let ghost xs = rules@.map_values(|s: &str| s@);
    let ghost f = |r: Seq<char>|
        if ascii_lower(c@) == ascii_lower(r) {
            Some(r)
        } else {
            None
        };
    let lc = ascii_lower_chars(c);
    let n = rules.len();
    let mut i: usize = 0;
    while i < n
        invariant
            n == rules.len(),
            i <= n,
            xs == rules@.map_values(|s: &str| s@),
            xs == blacklist_components(),
            lc@ == ascii_lower(c@),
            f == (|r: Seq<char>|
                if ascii_lower(c@) == ascii_lower(r) {
                    Some(r)
                } else {
                    None
                }),
            first_some(xs.take(i as int), f) is None,
        decreases n - i,
    {
        proof {
            lemma_first_some_step(xs, i as int, f);
        }
        let rc = chars_of(rules[i]);
        let lr = ascii_lower_chars(&rc);
        if chars_eq(&lc, &lr) {
            proof {
                lemma_first_some_prefix(xs, i + 1, f);
            }
            return Some(rules[i]);
        }
        i = i + 1;
    }
    proof {
        lemma_first_some_prefix(xs, n as int, f);
    }
    None
}

fn pattern_rule_of(path: &str) -> (r: Option<&'static str>)
    ensures
        r matches Some(s) ==> pattern_rule(path@) == Some(s@),
        r is None ==> pattern_rule(path@) is None,
{
    let pc = chars_of(path);
    let mut norm: Vec<char> = Vec::new();
    let n = pc.len();
    let mut i: usize = 0;
    while i < n
        invariant
            n == pc.len(),
            i <= n,
            norm@ == slashed(pc@.take(i as int)),
        decreases n - i,
    {
        if pc[i] == '\\' {
            norm.push('/');
        } else {
            norm.push(pc[i]);
        }
        assert(slashed(pc@.take(i + 1)) =~= slashed(pc@.take(i as int)).push(
            if pc@[i as int] == '\\' { '/' } else { pc@[i as int] },
        ));
        i = i + 1;
    }
    assert(pc@.take(n as int) == pc@);
    let normalized = string_from_chars(&norm);
    let name = match file_name_of(path) {
        Some(s) => s,
        None => String::new(),
    };
    let ghost nm = match file_name(path@) {
        Some(x) => x,
        None => Seq::<char>::empty(),
    };
    assert(name@ == nm);
    assert(pattern_rule(path@) == pattern_rule_named(path@, nm));
    let rules = pattern_rules();
    let ghost xs = rules@.map_values(|s: &str| s@);
    let ghost f = |g: Seq<char>|
        if glob_matches_nocase(g, slashed(path@)) || glob_matches_nocase(g, nm) {
            Some(g)
        } else {
            None
        };
    let m = rules.len();
    let mut k: usize = 0;
    while k < m
        invariant
            m == rules.len(),
            k <= m,
            xs == rules@.map_values(|s: &str| s@),
            xs == blacklist_patterns(),
            normalized@ == slashed(path@),
            name@ == nm,
            pattern_rule(path@) == pattern_rule_named(path@, nm),
            f == (|g: Seq<char>|
                if glob_matches_nocase(g, slashed(path@)) || glob_matches_nocase(g, nm) {
                    Some(g)
                } else {
                    None
                }),
            first_some(xs.take(k as int), f) is None,
        decreases m - k,
    {
        proof {
            lemma_first_some_step(xs, k as int, f);
        }
        assert(xs[k as int] == rules@[k as int]@);
        if glob_is_match_nocase(rules[k], normalized.as_str()) || glob_is_match_nocase(
            rules[k],
            name.as_str(),
        ) {
            proof {
                lemma_first_some_prefix(xs, k + 1, f);
            }
            return Some(rules[k]);
        }
        k = k + 1;
    }
    proof {
        lemma_first_some_prefix(xs, m as int, f);
    }
    None
}

/// The blacklist rule that blocks `path`, if any.
pub fn blacklist_rule_of(path: &str) -> (r: Option<String>)
    ensures
        r matches Some(s) ==> blacklist_rule(path@) == Some(s@),
        r is None ==> blacklist_rule(path@) is None,
{
    let comps = components_of(&chars_of(path));
    let ghost xs = seqs_of(comps@);
    let ghost f = |c: Seq<char>| component_rule(c);
    let n = comps.len();
    let mut i: usize = 0;
    while i < n
        invariant
            n == comps.len(),
            i <= n,
            xs == seqs_of(comps@),
            xs == components(path@),
            f == (|c: Seq<char>| component_rule(c)),
            first_some(xs.take(i as int), f) is None,
        decreases n - i,
    {
        proof {
            lemma_first_some_step(xs, i as int, f);
        }
        match component_rule_of(&comps[i]) {
            Some(rule) => {
                proof {
                    lemma_first_some_prefix(xs, i + 1, f);
                }
                return Some(rule.to_owned());
            },
            None => {},
        }
        i = i + 1;
    }
    proof {
        lemma_first_some_prefix(xs, n as int, f);
    }
    match pattern_rule_of(path) {
        Some(rule) => Some(rule.to_owned()),
        None => None,
    }
}

// ----------------------------------------------------------------------------
// Pattern lists
// ----------------------------------------------------------------------------

/// A pattern as written in a list: trimmed, with `\` turned into `/`.
pub open spec fn normalize_pattern(p: Seq<char>) -> Seq<char> {
    slashed(trim(p))
}

/// The non-empty elements, in order.
pub open spec fn nonempty(xs: Seq<Seq<char>>) -> Seq<Seq<char>>
    decreases xs.len(),
{
    if xs.len() == 0 {
        Seq::<Seq<char>>::empty()
    } else if xs.last().len() > 0 {
        nonempty(xs.drop_last()).push(xs.last())
    } else {
        nonempty(xs.drop_last())
    }
}

/// The patterns of a comma-separated list, in order, empty ones left out.
pub open spec fn pattern_list(s: Seq<char>) -> Seq<Seq<char>> {
    nonempty(split(s, ',').map_values(|x: Seq<char>| normalize_pattern(x)))
}

/// A pattern with no `/`, `*` or `.` names a file or directory anywhere.
pub open spec fn is_simple_name(p: Seq<char>) -> bool {
    !p.contains('/') && !p.contains('*') && !p.contains('.')
}

/// The globs that one pattern stands for: `**/p` and `**/p/**` for a simple
/// name, `p**` for a pattern that ends with `/`, else `p` itself.
pub open spec fn globs_for(p: Seq<char>) -> Seq<Seq<char>> {
    if is_simple_name(p) {
        seq![seq!['*', '*', '/'] + p, seq!['*', '*', '/'] + p + seq!['/', '*', '*']]
    } else if p.len() > 0 && p.last() == '/' {
        seq![p + seq!['*', '*']]
    } else {
        seq![p]
    }
}

/// Rule-and-glob pairs for the patterns, in order.
pub open spec fn matchers_for(ps: Seq<Seq<char>>) -> Seq<(Seq<char>, Seq<char>)>
    decreases ps.len(),
{
    if ps.len() == 0 {
        Seq::<(Seq<char>, Seq<char>)>::empty()
    } else {
        matchers_for(ps.drop_last()) + globs_for(ps.last()).map_values(
            |g: Seq<char>| (ps.last(), g),
        )
    }
}

/// The rule of the first matcher whose glob `globset` refuses.
pub open spec fn first_invalid(ms: Seq<(Seq<char>, Seq<char>)>) -> Option<Seq<char>> {
    first_some(
        ms,
        |m: (Seq<char>, Seq<char>)|
            if !glob_parses(m.1) {
                Some(m.0)
            } else {
                None
            },
    )
}

/// The rule of the first matcher whose glob matches `path`.
pub open spec fn first_match(ms: Seq<(Seq<char>, Seq<char>)>, path: Seq<char>) -> Option<
    Seq<char>,
> {
    first_some(
        ms,
        |m: (Seq<char>, Seq<char>)|
            if glob_matches(m.1, path) {
                Some(m.0)
            } else {
                None
            },
    )
}

/// A compiled pattern list: the patterns as written and their matchers.
pub struct PatternModel {
    pub patterns: Seq<Seq<char>>,
    pub matchers: Seq<(Seq<char>, Seq<char>)>,
}

/// What a comma-separated pattern list compiles to: the rule of the first
/// glob that does not parse, no pattern set where the list holds no
/// pattern, else the patterns and their matchers.
pub open spec fn compile_patterns(s: Seq<char>) -> Result<Option<PatternModel>, Seq<char>> {
    let ps = pattern_list(s);
    let ms = matchers_for(ps);
    match first_invalid(ms) {
        Some(p) => Err(p),
        None => if ps.len() == 0 {
            Ok(None)
        } else {
            Ok(Some(PatternModel { patterns: ps, matchers: ms }))
        },
    }
}

proof fn lemma_nonempty_concat(a: Seq<Seq<char>>, b: Seq<Seq<char>>)
    ensures
        nonempty(a + b) == nonempty(a) + nonempty(b),
    decreases b.len(),
{
    if b.len() == 0 {
        assert(a + b == a);
        assert(nonempty(a) + nonempty(b) == nonempty(a));
    } else {
        lemma_nonempty_concat(a, b.drop_last());
        assert((a + b).drop_last() == a + b.drop_last());
        assert((a + b).last() == b.last());
    }
}

proof fn lemma_matchers_concat(a: Seq<Seq<char>>, b: Seq<Seq<char>>)
    ensures
        matchers_for(a + b) == matchers_for(a) + matchers_for(b),
    decreases b.len(),
{
    if b.len() == 0 {
        assert(a + b == a);
        assert(matchers_for(a) + matchers_for(b) == matchers_for(a));
    } else {
        lemma_matchers_concat(a, b.drop_last());
        assert((a + b).drop_last() == a + b.drop_last());
        assert((a + b).last() == b.last());
        let g = globs_for(b.last()).map_values(|g: Seq<char>| (b.last(), g));
        assert(matchers_for(a) + matchers_for(b.drop_last()) + g == matchers_for(a) + (
        matchers_for(b.drop_last()) + g));
    }
}

/// The error of a pattern list.
#[derive(Debug, PartialEq, Eq)]
pub enum FilterError {
    /// A pattern whose glob `globset` refuses.
    InvalidGlob { pattern: String },
}

impl FilterError {
    /// The message shown for the error.
    pub fn message(&self) -> (r: String)
        ensures
            r@ == (match self {
                FilterError::InvalidGlob { pattern } => "Invalid glob pattern '"@ + pattern@
                    + "'"@,
            }),
    {
        match self {
            FilterError::InvalidGlob { pattern } => {
                let mut r = String::from_str("Invalid glob pattern '");
                r.append(pattern.as_str());
                r.append("'");
                r
            },
        }
    }
}

/// A compiled pattern list. The matchers are held as two parallel lists:
/// the rule each glob came from, and the glob.
pub struct PatternSet {
    patterns: Vec<String>,
    rules: Vec<String>,
    globs: Vec<String>,
}

impl View for PatternSet {
    type V = PatternModel;

    closed spec fn view(&self) -> PatternModel {
        PatternModel {
            patterns: self.patterns.deep_view(),
            matchers: Seq::new(self.rules.len() as nat, |i: int| (self.rules[i]@, self.globs[i]@)),
        }
    }
}

/// The three-character glob prefix `**/`.
fn star_star_slash() -> (r: Vec<char>)
    ensures
        r@ == seq!['*', '*', '/'],
{
    let r = vec!['*', '*', '/'];
    assert(r@ =~= seq!['*', '*', '/']);
    r
}

impl PatternSet {
    /// Every glob parses and the two matcher lists have one length.
    pub closed spec fn wf(&self) -> bool {
        &&& self.rules.len() == self.globs.len()
        &&& forall|i: int| 0 <= i < self.globs.len() ==> glob_parses(#[trigger] self.globs[i]@)
    }

    /// Adds one glob for `rule`; fails with the rule where the glob does
    /// not parse.
    fn add_glob(&mut self, rule: &Vec<char>, glob: Vec<char>) -> (ok: bool)
        requires
            old(self).wf(),
        ensures
            ok == glob_parses(glob@),
            ok ==> final(self).wf() && final(self)@.matchers == old(self)@.matchers.push(
                (rule@, glob@),
            ) && final(self)@.patterns == old(self)@.patterns,
            !ok ==> *final(self) == *old(self),
    {
        let g = string_from_chars(&glob);
        if !glob_check(g.as_str()) {
            return false;
        }
        let ghost old_m = self@.matchers;
        self.rules.push(string_from_chars(rule));
        self.globs.push(g);
        assert(self@.matchers =~= old_m.push((rule@, glob@)));
        true
    }

    /// Compiles a comma-separated pattern list.
    pub fn new(patterns: &str) -> (r: Result<Option<PatternSet>, FilterError>)
        ensures
            match (r, compile_patterns(patterns@)) {
                (Err(FilterError::InvalidGlob { pattern }), Err(p)) => pattern@ == p,
                (Ok(None), Ok(None)) => true,
                (Ok(Some(set)), Ok(Some(m))) => set@ == m && set.wf(),
                _ => false,
            },
    {
        let pieces = split_chars(&chars_of(patterns), ',');
        let ghost mapped = split(patterns@, ',').map_values(|x: Seq<char>| normalize_pattern(x));
        let ghost inv = |m: (Seq<char>, Seq<char>)|
            if !glob_parses(m.1) {
                Some(m.0)
            } else {
                None
            };
        let mut set = PatternSet { patterns: Vec::new(), rules: Vec::new(), globs: Vec::new() };
        assert(set@.patterns =~= Seq::<Seq<char>>::empty());
        assert(set@.matchers =~= Seq::<(Seq<char>, Seq<char>)>::empty());
        let n = pieces.len();
        let mut i: usize = 0;
        while i < n
            invariant
                n == pieces.len(),
                i <= n,
                seqs_of(pieces@) == split(patterns@, ','),
                mapped == split(patterns@, ',').map_values(
                    |x: Seq<char>| normalize_pattern(x),
                ),
                inv == (|m: (Seq<char>, Seq<char>)|
                    if !glob_parses(m.1) {
                        Some(m.0)
                    } else {
                        None
                    }),
                set.wf(),
                set@.patterns == nonempty(mapped.take(i as int)),
                set@.matchers == matchers_for(set@.patterns),
                first_invalid(set@.matchers) is None,
            decreases n - i,
        {
            let ghost before = set@;
            assert(mapped.take(i + 1).drop_last() == mapped.take(i as int));
            assert(mapped.take(i + 1).last() == normalize_pattern(pieces@[i as int]@));
            let t = trim_chars(&pieces[i]);
            let mut p: Vec<char> = Vec::new();
            let tn = t.len();
            let mut j: usize = 0;
            while j < tn
                invariant
                    tn == t.len(),
                    j <= tn,
                    p@ == slashed(t@.take(j as int)),
                decreases tn - j,
            {
                if t[j] == '\\' {
                    p.push('/');
                } else {
                    p.push(t[j]);
                }
                assert(slashed(t@.take(j + 1)) =~= slashed(t@.take(j as int)).push(
                    if t@[j as int] == '\\' { '/' } else { t@[j as int] },
                ));
                j = j + 1;
            }
            assert(t@.take(tn as int) == t@);
            assert(p@ == normalize_pattern(pieces@[i as int]@));
            if p.len() > 0 {
                let ghost ps2 = before.patterns.push(p@);
                assert(ps2.drop_last() == before.patterns);
                assert(ps2.last() == p@);
                set.patterns.push(string_from_chars(&p));
                assert(set@.patterns =~= ps2);
                let ghost pairs = globs_for(p@).map_values(|g: Seq<char>| (p@, g));
                assert(matchers_for(ps2) == before.matchers + pairs);
                let simple = !contains_char(&p, '/') && !contains_char(&p, '*') && !contains_char(&p, '.');
                let ok = if simple {
                    let mut g1 = star_star_slash();
                    let mut k: usize = 0;
                    while k < p.len()
                        invariant
                            k <= p.len(),
                            g1@ == seq!['*', '*', '/'] + p@.take(k as int),
                        decreases p.len() - k,
                    {
                        g1.push(p[k]);
                        assert(p@.take(k + 1) == p@.take(k as int).push(p@[k as int]));
                        k = k + 1;
                    }
                    assert(p@.take(p.len() as int) == p@);
                    let mut g2 = g1.clone();
                    g2.push('/');
                    g2.push('*');
                    g2.push('*');
                    assert(g2@ =~= seq!['*', '*', '/'] + p@ + seq!['/', '*', '*']);
                    let ghost g1v = g1@;
                    let ghost g2v = g2@;
                    assert(pairs =~= seq![(p@, g1v), (p@, g2v)]);
                    let ghost mid = set@;
                    if set.add_glob(&p, g1) {
                        let ghost mid2 = set@;
                        let ok2 = set.add_glob(&p, g2);
                        proof {
                            lemma_first_some_single((p@, g1v), inv);
                            lemma_first_some_single((p@, g2v), inv);
                            lemma_first_some_concat(before.matchers, seq![(p@, g1v)], inv);
                            lemma_first_some_concat(
                                before.matchers + seq![(p@, g1v)],
                                seq![(p@, g2v)],
                                inv,
                            );
                            assert(before.matchers + seq![(p@, g1v)] + seq![(p@, g2v)]
                                =~= before.matchers + pairs);
                            assert(mid2.matchers =~= before.matchers + seq![(p@, g1v)]);
                            if ok2 {
                                assert(set@.matchers =~= before.matchers + pairs);
                            }
                        }
                        ok2
                    } else {
                        proof {
                            lemma_first_some_single((p@, g1v), inv);
                            lemma_first_some_concat(before.matchers, seq![(p@, g1v)], inv);
                            lemma_first_some_concat(
                                before.matchers + seq![(p@, g1v)],
                                seq![(p@, g2v)],
                                inv,
                            );
                            assert(before.matchers + seq![(p@, g1v)] + seq![(p@, g2v)]
                                =~= before.matchers + pairs);
                        }
                        false
                    }
                } else {
                    let mut g = p.clone();
                    if p[p.len() - 1] == '/' {
                        g.push('*');
                        g.push('*');
                        assert(g@ =~= p@ + seq!['*', '*']);
                    }
                    let ghost gv = g@;
                    assert(pairs =~= seq![(p@, gv)]);
                    let ok1 = set.add_glob(&p, g);
                    proof {
                        lemma_first_some_single((p@, gv), inv);
                        lemma_first_some_concat(before.matchers, seq![(p@, gv)], inv);
                        if ok1 {
                            assert(set@.matchers =~= before.matchers + pairs);
                        }
                    }
                    ok1
                };
                if !ok {
                    proof {
                        let rest = mapped.skip(i + 1);
                        assert(mapped.take(i + 1) + rest == mapped);
                        lemma_nonempty_concat(mapped.take(i + 1), rest);
                        lemma_matchers_concat(ps2, nonempty(rest));
                        lemma_first_some_concat(matchers_for(ps2), matchers_for(nonempty(rest)), inv);
                        lemma_first_some_concat(before.matchers, pairs, inv);
                    }
                    return Err(FilterError::InvalidGlob { pattern: string_from_chars(&p) });
                }
                proof {
                    lemma_first_some_concat(before.matchers, pairs, inv);
                }
            } else {
                assert(nonempty(mapped.take(i + 1)) == before.patterns);
            }
            i = i + 1;
        }
        assert(mapped.take(n as int) == mapped);
        if set.patterns.len() == 0 {
            Ok(None)
        } else {
            Ok(Some(set))
        }
    }

    /// The rule of the first matcher that matches `path`.
    pub fn matched_rule(&self, path: &str) -> (r: Option<String>)
        requires
            self.wf(),
        ensures
            r matches Some(s) ==> first_match(self@.matchers, path@) == Some(s@),
            r is None ==> first_match(self@.matchers, path@) is None,
    {
        let ghost ms = self@.matchers;
        let ghost f = |m: (Seq<char>, Seq<char>)|
            if glob_matches(m.1, path@) {
                Some(m.0)
            } else {
                None
            };
        let n = self.rules.len();
        let mut i: usize = 0;
        while i < n
            invariant
                n == self.rules.len(),
                i <= n,
                self.wf(),
                ms == self@.matchers,
                f == (|m: (Seq<char>, Seq<char>)|
                    if glob_matches(m.1, path@) {
                        Some(m.0)
                    } else {
                        None
                    }),
                first_some(ms.take(i as int), f) is None,
            decreases n - i,
        {
            proof {
                lemma_first_some_step(ms, i as int, f);
            }
            assert(ms[i as int] == (self.rules[i as int]@, self.globs[i as int]@));
            if glob_is_match(self.globs[i].as_str(), path) {
                proof {
                    lemma_first_some_prefix(ms, i + 1, f);
                }
                return Some(self.rules[i].clone());
            }
            i = i + 1;
        }
        proof {
            lemma_first_some_prefix(ms, n as int, f);
        }
        None
    }

    /// The patterns as written, joined with `,`.
    pub fn rules(&self) -> (r: String)
        ensures
            r@ == join(self@.patterns, ","@),
    {
        join_strings(&self.patterns, ",")
    }
}

// ----------------------------------------------------------------------------
// The filter
// ----------------------------------------------------------------------------

/// Why a path is kept or left out.
#[derive(Debug, PartialEq, Eq)]
pub enum FilterDecision {
    Included,
    BlockedByBlacklist { rule: String },
    BlockedByExclude { rule: String },
    NotIncludedByInclude { rule: String },
}

/// A filter decision by the text of its rule.
pub enum FilterVerdict {
    Included,
    Blacklisted(Seq<char>),
    Excluded(Seq<char>),
    NotIncluded(Seq<char>),
}

impl View for FilterDecision {
    type V = FilterVerdict;

    open spec fn view(&self) -> FilterVerdict {
        match self {
            FilterDecision::Included => FilterVerdict::Included,
            FilterDecision::BlockedByBlacklist { rule } => FilterVerdict::Blacklisted(rule@),
            FilterDecision::BlockedByExclude { rule } => FilterVerdict::Excluded(rule@),
            FilterDecision::NotIncludedByInclude { rule } => FilterVerdict::NotIncluded(rule@),
        }
    }
}

impl FilterDecision {
    /// A copy of the decision.
    pub fn duplicate(&self) -> (r: FilterDecision)
        ensures
            r@ == self@,
    {
        match self {
            FilterDecision::Included => FilterDecision::Included,
            FilterDecision::BlockedByBlacklist { rule } => FilterDecision::BlockedByBlacklist {
                rule: rule.clone(),
            },
            FilterDecision::BlockedByExclude { rule } => FilterDecision::BlockedByExclude {
                rule: rule.clone(),
            },
            FilterDecision::NotIncludedByInclude { rule } => FilterDecision::NotIncludedByInclude {
                rule: rule.clone(),
            },
        }
    }
}

/// A filter: its include and exclude pattern lists, and whether the
/// built-in blacklist is off.
pub struct FilterModel {
    pub includes: Option<PatternModel>,
    pub exclude: Option<PatternModel>,
    pub no_blacklist: bool,
}

/// The decision for a relative path. The blacklist comes first (unless it
/// is off), then the exclude patterns, then the include patterns; with no
/// include patterns every remaining path is kept.
pub open spec fn filter_verdict(m: FilterModel, path: Seq<char>) -> FilterVerdict {
    match (if m.no_blacklist {
        None
    } else {
        blacklist_rule(path)
    }) {
        Some(rule) => FilterVerdict::Blacklisted(rule),
        None => match (match m.exclude {
            Some(ex) => first_match(ex.matchers, path),
            None => None,
        }) {
            Some(rule) => FilterVerdict::Excluded(rule),
            None => match m.includes {
                Some(inc) => if first_match(inc.matchers, path) is Some {
                    FilterVerdict::Included
                } else {
                    FilterVerdict::NotIncluded(join(inc.patterns, ","@))
                },
                None => FilterVerdict::Included,
            },
        },
    }
}

/// What an optional pattern list compiles to.
pub open spec fn compile_optional(s: Option<Seq<char>>) -> Result<Option<PatternModel>, Seq<char>> {
    match s {
        None => Ok(None),
        Some(t) => compile_patterns(t),
    }
}

/// The filter made of an include list, an exclude list and the blacklist
/// switch; an invalid glob in the include list is reported first.
pub open spec fn filter_model(
    includes: Option<Seq<char>>,
    exclude: Option<Seq<char>>,
    no_blacklist: bool,
) -> Result<FilterModel, Seq<char>> {
    match compile_optional(includes) {
        Err(p) => Err(p),
        Ok(inc) => match compile_optional(exclude) {
            Err(p) => Err(p),
            Ok(ex) => Ok(FilterModel { includes: inc, exclude: ex, no_blacklist }),
        },
    }
}

/// The text of an optional string slice.
pub open spec fn opt_text(s: Option<&str>) -> Option<Seq<char>> {
    match s {
        Some(t) => Some(t@),
        None => None,
    }
}

/// Include and exclude patterns with the blacklist switch.
pub struct FileFilter {
    includes: Option<PatternSet>,
    exclude: Option<PatternSet>,
    no_blacklist: bool,
}

impl View for FileFilter {
    type V = FilterModel;

    closed spec fn view(&self) -> FilterModel {
        FilterModel {
            includes: match self.includes {
                Some(s) => Some(s@),
                None => None,
            },
            exclude: match self.exclude {
                Some(s) => Some(s@),
                None => None,
            },
            no_blacklist: self.no_blacklist,
        }
    }
}

fn compile_option(s: Option<&str>) -> (r: Result<Option<PatternSet>, FilterError>)
    ensures
        match (r, compile_optional(opt_text(s))) {
            (Err(FilterError::InvalidGlob { pattern }), Err(p)) => pattern@ == p,
            (Ok(None), Ok(None)) => true,
            (Ok(Some(set)), Ok(Some(m))) => set@ == m && set.wf(),
            _ => false,
        },
{
    match s {
        Some(t) => PatternSet::new(t),
        None => Ok(None),
    }
}

impl FileFilter {
    /// Both pattern sets are well formed.
    pub closed spec fn wf(&self) -> bool {
        &&& (self.includes matches Some(s) ==> s.wf())
        &&& (self.exclude matches Some(s) ==> s.wf())
    }

    /// Compiles a filter. An invalid glob is an error,
    /// with the pattern it came from.
    pub fn new(includes: Option<&str>, exclude: Option<&str>, no_blacklist: bool) -> (r: Result<
        FileFilter,
        FilterError,
    >)
        ensures
            match (r, filter_model(opt_text(includes), opt_text(exclude), no_blacklist)) {
                (Ok(f), Ok(m)) => f@ == m && f.wf(),
                (Err(FilterError::InvalidGlob { pattern }), Err(p)) => pattern@ == p,
                _ => false,
            },
    {
        let inc = match compile_option(includes) {
            Ok(x) => x,
            Err(e) => return Err(e),
        };
        let ex = match compile_option(exclude) {
            Ok(x) => x,
            Err(e) => return Err(e),
        };
        Ok(FileFilter { includes: inc, exclude: ex, no_blacklist })
    }

    /// The decision for a relative path.
    pub fn explain(&self, path: &str) -> (r: FilterDecision)
        requires
            self.wf(),
        ensures
            r@ == filter_verdict(self@, path@),
    {
        if !self.no_blacklist {
            if let Some(rule) = blacklist_rule_of(path) {
                return FilterDecision::BlockedByBlacklist { rule };
            }
        }
        if let Some(ex) = &self.exclude {
            if let Some(rule) = ex.matched_rule(path) {
                return FilterDecision::BlockedByExclude { rule };
            }
        }
        match &self.includes {
            Some(inc) => {
                if inc.matched_rule(path).is_some() {
                    FilterDecision::Included
                } else {
                    FilterDecision::NotIncludedByInclude { rule: inc.rules() }
                }
            },
            None => FilterDecision::Included,
        }
    }

    /// Whether a relative path is kept.
    pub fn is_match(&self, path: &str) -> (r: bool)
        requires
            self.wf(),
        ensures
            r == (filter_verdict(self@, path@) is Included),
    {
        match self.explain(path) {
            FilterDecision::Included => true,
            _ => false,
        }
    }
}

// ----------------------------------------------------------------------------
// Laws
// ----------------------------------------------------------------------------

/// An exclude pattern wins over the include patterns: a path that the
/// blacklist lets through and an exclude pattern matches is excluded,
/// whatever the include patterns say.
pub proof fn law_exclude_wins_over_include(m: FilterModel, path: Seq<char>)
    requires
        m.no_blacklist || blacklist_rule(path) is None,
        m.exclude matches Some(ex) && first_match(ex.matchers, path) is Some,
    ensures
        filter_verdict(m, path) is Excluded,
        filter_verdict(FilterModel { includes: None, ..m }, path) is Excluded,
{
}

/// The blacklist, when on, decides first: a blacklisted path is blocked
/// by its blacklist rule whatever the patterns say.
pub proof fn law_blacklist_decides_first(m: FilterModel, path: Seq<char>)
    requires
        !m.no_blacklist,
        blacklist_rule(path) is Some,
    ensures
        filter_verdict(m, path) == FilterVerdict::Blacklisted(blacklist_rule(path)->0),
{
}

/// With the blacklist off, no path is blocked by it.
pub proof fn law_no_blacklist_disables_blacklist(m: FilterModel, path: Seq<char>)
    requires
        m.no_blacklist,
    ensures
        !(filter_verdict(m, path) is Blacklisted),
{
}

/// Without include patterns, every path that neither the blacklist nor an
/// exclude pattern blocks is kept.
pub proof fn law_no_include_keeps_the_rest(m: FilterModel, path: Seq<char>)
    requires
        m.includes is None,
        m.no_blacklist || blacklist_rule(path) is None,
        m.exclude matches Some(ex) ==> first_match(ex.matchers, path) is None,
    ensures
        filter_verdict(m, path) is Included,
{
}

/// A list with no non-blank pattern (such as `""` or `" , "`) is no
/// pattern set at all.
pub proof fn law_blank_list_is_no_patterns(s: Seq<char>)
    requires
        pattern_list(s).len() == 0,
    ensures
        compile_patterns(s) == Ok::<Option<PatternModel>, Seq<char>>(None),
{
    assert(matchers_for(pattern_list(s)) =~= Seq::<(Seq<char>, Seq<char>)>::empty());
}

/// Every pattern of a list is a rule of its own matchers: the glob of
/// each of its matchers belongs to it.
proof fn lemma_matchers_of(ps: Seq<Seq<char>>, x: Seq<char>, g: Seq<char>)
    requires
        ps.contains(x),
        globs_for(x).contains(g),
    ensures
        matchers_for(ps).contains((x, g)),
    decreases ps.len(),
{
    let last = ps.last();
    let tail = globs_for(last).map_values(|h: Seq<char>| (last, h));
    let rest = matchers_for(ps.drop_last());
    assert(matchers_for(ps) == rest + tail);
    if last == x {
        let k = choose|k: int| 0 <= k < globs_for(x).len() && globs_for(x)[k] == g;
        assert(tail[k] == (x, g));
        assert((rest + tail)[rest.len() + k] == (x, g));
    } else {
        let i = choose|i: int| 0 <= i < ps.len() && ps[i] == x;
        assert(i < ps.len() - 1);
        assert(ps.drop_last()[i] == x);
        lemma_matchers_of(ps.drop_last(), x, g);
        let j = choose|j: int| 0 <= j < rest.len() && rest[j] == (x, g);
        assert((rest + tail)[j] == (x, g));
    }
}

/// A pattern that is a bare name (no `/`, `*` or `.`) selects that name
/// anywhere and everything beneath it: its list compiles to the globs
/// `**/name` and `**/name/**`, both under the name as their rule.
pub proof fn law_bare_name_covers_its_subtree(s: Seq<char>, m: PatternModel, n: Seq<char>)
    requires
        compile_patterns(s) == Ok::<Option<PatternModel>, Seq<char>>(Some(m)),
        m.patterns.contains(n),
        !n.contains('/'),
        !n.contains('*'),
        !n.contains('.'),
    ensures
        m.matchers.contains((n, seq!['*', '*', '/'] + n)),
        m.matchers.contains((n, seq!['*', '*', '/'] + n + seq!['/', '*', '*'])),
{
    let g1 = seq!['*', '*', '/'] + n;
    let g2 = seq!['*', '*', '/'] + n + seq!['/', '*', '*'];
    assert(globs_for(n)[0] == g1);
    assert(globs_for(n)[1] == g2);
    lemma_matchers_of(m.patterns, n, g1);
    lemma_matchers_of(m.patterns, n, g2);
}

/// A pattern that ends with `/` (such as `tests/`) covers everything
/// beneath that directory: it compiles to the glob `pattern**`.
pub proof fn law_directory_pattern_covers_its_subtree(s: Seq<char>, m: PatternModel, d: Seq<char>)
    requires
        compile_patterns(s) == Ok::<Option<PatternModel>, Seq<char>>(Some(m)),
        m.patterns.contains(d),
        d.len() > 0,
        d.last() == '/',
    ensures
        m.matchers.contains((d, d + seq!['*', '*'])),
{
    assert(d.contains('/')) by {
        assert(d[d.len() - 1] == '/');
    }
    assert(globs_for(d)[0] == d + seq!['*', '*']);
    lemma_matchers_of(m.patterns, d, d + seq!['*', '*']);
}

} // verus!
