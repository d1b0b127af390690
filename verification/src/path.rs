//! Slash-separated paths, read component by component as `std::path::Path` does.

use vstd::prelude::*;
use crate::text::{
    chars_eq, chars_of, join, lemma_text_lt_asymmetric, lemma_text_lt_transitive, push_char,
    push_chars, seqs_of, split, split_chars, string_from_chars, text_less, text_lt,
};

verus! {

/// The pieces of a path that name something: neither empty nor `.`.
pub open spec fn named_parts(segs: Seq<Seq<char>>) -> Seq<Seq<char>>
    decreases segs.len(),
{
    if segs.len() == 0 {
        Seq::<Seq<char>>::empty()
    } else {
        let rest = named_parts(segs.drop_last());
        let x = segs.last();
        if x.len() > 0 && x != seq!['.'] {
            rest.push(x)
        } else {
            rest
        }
    }
}

/// `Path::components`, each component by its text: a leading `/` is the
/// root, a leading `.` is kept, other empty or `.` pieces are dropped.
pub open spec fn components(p: Seq<char>) -> Seq<Seq<char>> {
    let segs = split(p, '/');
    let lead = if p.len() > 0 && p[0] == '/' {
        seq![seq!['/']]
    } else if segs[0] == seq!['.'] {
        seq![seq!['.']]
    } else {
        Seq::<Seq<char>>::empty()
    };
    lead + named_parts(segs)
}

/// `Path::file_name`: the last component, unless it is the root, `.` or `..`.
pub open spec fn file_name(p: Seq<char>) -> Option<Seq<char>> {
    let c = components(p);
    if c.len() == 0 {
        None
    } else if c.last() == seq!['/'] || c.last() == seq!['.'] || c.last() == seq!['.', '.'] {
        None
    } else {
        Some(c.last())
    }
}

/// `Path::strip_prefix`: the path that remains after the components of
/// `base`, joined by `/`, or `None` where `base` is not a prefix.
pub open spec fn strip_prefix(p: Seq<char>, base: Seq<char>) -> Option<Seq<char>> {
    let pc = components(p);
    let bc = components(base);
    if bc.len() <= pc.len() && pc.take(bc.len() as int) == bc {
        Some(join(pc.skip(bc.len() as int), seq!['/']))
    } else {
        None
    }
}

/// `PathBuf::join`: an absolute `tail` replaces `base`; otherwise a `/`
/// goes between them unless `base` already ends with one.
pub open spec fn join_path(base: Seq<char>, tail: Seq<char>) -> Seq<char> {
    if tail.len() > 0 && tail[0] == '/' {
        tail
    } else if base.len() == 0 || base.last() == '/' {
        base + tail
    } else {
        base + seq!['/'] + tail
    }
}

/// `Path::is_absolute` on a Unix path.
pub open spec fn is_absolute(p: Seq<char>) -> bool {
    p.len() > 0 && p[0] == '/'
}

fn is_dot(x: &Vec<char>) -> (r: bool)
    ensures
        r == (x@ == seq!['.']),
{
    let r = x.len() == 1 && x[0] == '.';
    if r {
        assert(x@ == seq!['.']);
    }
    r
}

fn is_dot_dot(x: &Vec<char>) -> (r: bool)
    ensures
        r == (x@ == seq!['.', '.']),
{
    let r = x.len() == 2 && x[0] == '.' && x[1] == '.';
    if r {
        assert(x@ == seq!['.', '.']);
    }
    r
}

/// The components of a path.
pub fn components_of(p: &Vec<char>) -> (r: Vec<Vec<char>>)
    ensures
        seqs_of(r@) == components(p@),
{
    let segs = split_chars(p, '/');
    let mut r: Vec<Vec<char>> = Vec::new();
    if p.len() > 0 && p[0] == '/' {
        let v = vec!['/'];
        assert(v@ =~= seq!['/']);
        r.push(v);
        assert(seqs_of(r@) =~= seq![seq!['/']]);
    } else if is_dot(&segs[0]) {
        let v = vec!['.'];
        assert(v@ =~= seq!['.']);
        r.push(v);
        assert(seqs_of(r@) =~= seq![seq!['.']]);
    } else {
        assert(seqs_of(r@) =~= Seq::<Seq<char>>::empty());
    }
    let ghost lead = seqs_of(r@);
    let n = segs.len();
    let mut i: usize = 0;
    while i < n
        invariant
            n == segs.len(),
            i <= n,
            seqs_of(segs@) == split(p@, '/'),
            seqs_of(r@) == lead + named_parts(seqs_of(segs@).take(i as int)),
        decreases n - i,
    {
        let ghost before = seqs_of(r@);
        assert(seqs_of(segs@).take(i + 1).drop_last() == seqs_of(segs@).take(i as int));
        let x = &segs[i];
        if x.len() > 0 && !is_dot(x) {
            let y = x.clone();
            r.push(y);
            assert(seqs_of(r@) =~= before.push(x@));
        }
        i = i + 1;
    }
    assert(seqs_of(segs@).take(n as int) == seqs_of(segs@));
    r
}

/// Character vectors made into strings.
pub fn strings_of(v: &Vec<Vec<char>>) -> (r: Vec<String>)
    ensures
        r.deep_view() == seqs_of(v@),
{
    let mut r: Vec<String> = Vec::new();
    let n = v.len();
    let mut i: usize = 0;
    while i < n
        invariant
            n == v.len(),
            i <= n,
            r.deep_view() == seqs_of(v@).take(i as int),
        decreases n - i,
    {
        let ghost before = r.deep_view();
        let s = string_from_chars(&v[i]);
        r.push(s);
        assert(r.deep_view() =~= before.push(v@[i as int]@));
        assert(seqs_of(v@).take(i + 1) =~= seqs_of(v@).take(i as int).push(v@[i as int]@));
        i = i + 1;
    }
    assert(seqs_of(v@).take(n as int) =~= seqs_of(v@));
    r
}

/// The file name of a path.
pub fn file_name_of(p: &str) -> (r: Option<String>)
    ensures
        r matches Some(s) ==> file_name(p@) == Some(s@),
        r is None ==> file_name(p@) is None,
{
    let cs = chars_of(p);
    let comps = components_of(&cs);
    if comps.len() == 0 {
        return None;
    }
    let last = &comps[comps.len() - 1];
    if (last.len() == 1 && last[0] == '/') || is_dot(last) || is_dot_dot(last) {
        proof {
            if last.len() == 1 && last[0] == '/' {
                assert(last@ == seq!['/']);
            }
        }
        None
    } else {
        proof {
            if last@ == seq!['/'] {
                assert(last.len() == 1 && last[0] == '/');
            }
        }
        Some(string_from_chars(last))
    }
}

fn prefix_of(a: &Vec<Vec<char>>, b: &Vec<Vec<char>>) -> (r: bool)
    ensures
        r == (seqs_of(a@).len() <= seqs_of(b@).len() && seqs_of(b@).take(
            seqs_of(a@).len() as int,
        ) == seqs_of(a@)),
{
    if a.len() > b.len() {
        return false;
    }
    let n = a.len();
    let mut i: usize = 0;
    while i < n
        invariant
            n == a.len(),
            n <= b.len(),
            i <= n,
            forall|k: int| 0 <= k < i ==> a@[k]@ == b@[k]@,
        decreases n - i,
    {
        if !chars_eq(&a[i], &b[i]) {
            assert(seqs_of(b@).take(n as int)[i as int] != seqs_of(a@)[i as int]);
            return false;
        }
        i = i + 1;
    }
    assert(seqs_of(b@).take(n as int) =~= seqs_of(a@));
    true
}

/// Joins path components with `/`.
pub(crate) fn join_components(v: &Vec<Vec<char>>, from: usize) -> (r: String)
    requires
        from <= v.len(),
    ensures
        r@ == join(seqs_of(v@).skip(from as int), seq!['/']),
{
    let mut r = String::new();
    let n = v.len();
    let mut i: usize = from;
    while i < n
        invariant
            n == v.len(),
            from <= i <= n,
            r@ == join(seqs_of(v@).subrange(from as int, i as int), seq!['/']),
        decreases n - i,
    {
        let ghost pre = seqs_of(v@).subrange(from as int, i as int);
        let ghost nxt = seqs_of(v@).subrange(from as int, i + 1);
        assert(nxt.drop_last() == pre);
        assert(nxt.last() == v@[i as int]@);
        if i > from {
            push_char(&mut r, '/');
            assert(seq!['/'] =~= Seq::<char>::empty().push('/'));
        }
        push_chars(&mut r, &v[i]);
        proof {
            if i == from {
                assert(nxt.len() == 1);
            }
        }
        i = i + 1;
    }
    assert(seqs_of(v@).subrange(from as int, n as int) == seqs_of(v@).skip(from as int));
    r
}

/// `Path::strip_prefix`, on the text of the two paths.
pub fn strip_prefix_of(p: &str, base: &str) -> (r: Option<String>)
    ensures
        r matches Some(s) ==> strip_prefix(p@, base@) == Some(s@),
        r is None ==> strip_prefix(p@, base@) is None,
{
    let pc = components_of(&chars_of(p));
    let bc = components_of(&chars_of(base));
    if prefix_of(&bc, &pc) {
        Some(join_components(&pc, bc.len()))
    } else {
        None
    }
}

/// Whether two paths have the same components (`Path == Path`).
pub fn same_components(p: &str, q: &str) -> (r: bool)
    ensures
        r == (components(p@) == components(q@)),
{
    let pc = components_of(&chars_of(p));
    let qc = components_of(&chars_of(q));
    let r = prefix_of(&pc, &qc) && pc.len() == qc.len();
    proof {
        assert(seqs_of(qc@).take(seqs_of(qc@).len() as int) == seqs_of(qc@));
    }
    r
}

/// `PathBuf::join` on the text of the two paths.
pub fn join_path_of(base: &str, tail: &str) -> (r: String)
    ensures
        r@ == join_path(base@, tail@),
{
    let bc = chars_of(base);
    let tc = chars_of(tail);
    if tc.len() > 0 && tc[0] == '/' {
        return string_from_chars(&tc);
    }
    let mut r = string_from_chars(&bc);
    if !(bc.len() == 0 || bc[bc.len() - 1] == '/') {
        push_char(&mut r, '/');
    }
    push_chars(&mut r, &tc);
    r
}

/// The order of paths (`Path`'s `Ord` on paths of named components):
/// component by component, each compared as text.
pub open spec fn parts_lt(a: Seq<Seq<char>>, b: Seq<Seq<char>>) -> bool
    decreases a.len(),
{
    if a.len() == 0 {
        b.len() > 0
    } else if b.len() == 0 {
        false
    } else if a[0] == b[0] {
        parts_lt(a.drop_first(), b.drop_first())
    } else {
        text_lt(a[0], b[0])
    }
}

/// `a` sorts before `b` as a path.
pub open spec fn path_lt(a: Seq<char>, b: Seq<char>) -> bool {
    parts_lt(components(a), components(b))
}

pub proof fn lemma_parts_lt_transitive(a: Seq<Seq<char>>, b: Seq<Seq<char>>, c: Seq<Seq<char>>)
    requires
        parts_lt(a, b),
        parts_lt(b, c),
    ensures
        parts_lt(a, c),
    decreases a.len(),
{
    if a.len() > 0 && b.len() > 0 && c.len() > 0 {
        if a[0] == b[0] && b[0] == c[0] {
            lemma_parts_lt_transitive(a.drop_first(), b.drop_first(), c.drop_first());
        } else if a[0] == b[0] {
        } else if b[0] == c[0] {
        } else {
            lemma_text_lt_transitive(a[0], b[0], c[0]);
            if a[0] == c[0] {
                lemma_text_lt_asymmetric(a[0], b[0]);
            }
        }
    }
}

pub proof fn lemma_parts_lt_asymmetric(a: Seq<Seq<char>>, b: Seq<Seq<char>>)
    requires
        parts_lt(a, b),
    ensures
        !parts_lt(b, a),
    decreases a.len(),
{
    if a.len() > 0 && b.len() > 0 {
        if a[0] == b[0] {
            lemma_parts_lt_asymmetric(a.drop_first(), b.drop_first());
        } else {
            lemma_text_lt_asymmetric(a[0], b[0]);
        }
    }
}

/// Whether path `a` sorts before path `b`.
pub fn parts_less(a: &Vec<Vec<char>>, b: &Vec<Vec<char>>) -> (r: bool)
    ensures
        r == parts_lt(seqs_of(a@), seqs_of(b@)),
{
    let ghost sa = seqs_of(a@);
    let ghost sb = seqs_of(b@);
    let mut i: usize = 0;
    assert(sa.skip(0) == sa);
    assert(sb.skip(0) == sb);
    while i < a.len() && i < b.len() && chars_eq(&a[i], &b[i])
        invariant
            sa == seqs_of(a@),
            sb == seqs_of(b@),
            i <= a.len(),
            i <= b.len(),
            parts_lt(sa, sb) == parts_lt(sa.skip(i as int), sb.skip(i as int)),
        decreases a.len() - i,
    {
        assert(sa.skip(i as int).drop_first() == sa.skip(i + 1));
        assert(sb.skip(i as int).drop_first() == sb.skip(i + 1));
        assert(sa.skip(i as int)[0] == a@[i as int]@);
        assert(sb.skip(i as int)[0] == b@[i as int]@);
        i = i + 1;
    }
    if i == a.len() {
        i < b.len()
    } else if i == b.len() {
        false
    } else {
        assert(sa.skip(i as int)[0] == a@[i as int]@);
        assert(sb.skip(i as int)[0] == b@[i as int]@);
        text_less(&a[i], &b[i])
    }
}

} // verus!
