//! The directory tree shown at the top of the output: paths are inserted
//! component by component, children are kept in name order, and the tree
//! is drawn with box-drawing connectors.

use vstd::prelude::*;
use crate::path::{components, components_of, strings_of};
use crate::text::{chars_of, lemma_text_lt_asymmetric, lemma_text_lt_irreflexive, lemma_text_lt_total, lemma_text_lt_transitive, push_str, same_text, text_less, text_lt};

verus! {

/// A directory-tree node: its children by name, in name order, and
/// whether it is a directory.
pub struct Node {
    children: Vec<(String, Node)>,
    is_dir: bool,
}

/// Whether the child at `i` is called `name`.
pub open spec fn named_at(cs: Seq<(String, Node)>, name: Seq<char>, i: int) -> bool {
    0 <= i < cs.len() && cs[i].0@ == name
}

/// The child called `name`, if any.
pub open spec fn child_named(cs: Seq<(String, Node)>, name: Seq<char>) -> Option<Node> {
    if exists|i: int| named_at(cs, name, i) {
        Some(cs[choose|i: int| named_at(cs, name, i)].1)
    } else {
        None
    }
}

/// Children names in strictly increasing order.
pub open spec fn sorted_names(cs: Seq<(String, Node)>) -> bool {
    forall|a: int, b: int| 0 <= a < b < cs.len() ==> text_lt(#[trigger] cs[a].0@, #[trigger] cs[b].0@)
}

proof fn lemma_child_named_at(cs: Seq<(String, Node)>, i: int)
    requires
        sorted_names(cs),
        0 <= i < cs.len(),
    ensures
        child_named(cs, cs[i].0@) == Some(cs[i].1),
{
    let name = cs[i].0@;
    assert(named_at(cs, name, i));
    let j = choose|i: int| named_at(cs, name, i);
    assert(0 <= j < cs.len() && cs[j].0@ == name);
    if j < i {
        assert(text_lt(cs[j].0@, cs[i].0@));
        lemma_text_lt_irreflexive(name);
        assert(false);
    } else if i < j {
        assert(text_lt(cs[i].0@, cs[j].0@));
        lemma_text_lt_irreflexive(name);
        assert(false);
    }
    assert(j == i);
    assert(child_named(cs, name) == Some(cs[j].1));
}

impl Node {
    /// The node's children, in order.
    pub closed spec fn spec_children(self) -> Seq<(String, Node)> {
        self.children@
    }

    /// Whether the node is a directory.
    pub closed spec fn spec_is_dir(self) -> bool {
        self.is_dir
    }

    /// Children in strictly increasing name order, at every level.
    pub closed spec fn tidy(self) -> bool
        decreases self,
    {
        &&& sorted_names(self.children@)
        &&& forall|i: int|
            0 <= i < self.children@.len() ==> (#[trigger] self.children@[i]).1.tidy()
    }

    #[verifier::type_invariant]
    closed spec fn inv(self) -> bool {
        self.tidy()
    }
}

/// What is found at the component path `p` below `n`: whether it is a
/// directory, or `None` where there is nothing.
pub open spec fn kind_at(n: Node, p: Seq<Seq<char>>) -> Option<bool>
    decreases p.len(),
{
    if p.len() == 0 {
        Some(n.spec_is_dir())
    } else {
        match child_named(n.spec_children(), p[0]) {
            Some(c) => kind_at(c, p.drop_first()),
            None => None,
        }
    }
}

/// What is found at `q` after the component path `cs` is inserted with
/// kind `d`: `cs` itself has kind `d`, every proper prefix of `cs` keeps
/// its kind or is a new directory, and nothing else changes.
pub open spec fn kind_after_insert(n: Node, cs: Seq<Seq<char>>, d: bool, q: Seq<Seq<char>>) -> Option<
    bool,
> {
    if q == cs {
        Some(d)
    } else if 0 < q.len() < cs.len() && q == cs.take(q.len() as int) {
        match kind_at(n, q) {
            Some(v) => Some(v),
            None => Some(true),
        }
    } else {
        kind_at(n, q)
    }
}

/// Inserting a path a second time, with the same kind, changes nothing.
pub proof fn law_insert_twice_is_insert_once(n: Node, n1: Node, n2: Node, cs: Seq<Seq<char>>, d: bool)
    requires
        forall|q: Seq<Seq<char>>| #[trigger] kind_at(n1, q) == kind_after_insert(n, cs, d, q),
        forall|q: Seq<Seq<char>>| #[trigger] kind_at(n2, q) == kind_after_insert(n1, cs, d, q),
    ensures
        forall|q: Seq<Seq<char>>| #[trigger] kind_at(n2, q) == kind_at(n1, q),
{
    assert forall|q: Seq<Seq<char>>| #[trigger] kind_at(n2, q) == kind_at(n1, q) by {
        assert(kind_at(n1, q) == kind_after_insert(n, cs, d, q));
    }
}

impl Node {
    /// An empty node.
    pub fn new(is_dir: bool) -> (r: Node)
        ensures
            r.spec_children().len() == 0,
            r.spec_is_dir() == is_dir,
            r.tidy(),
    {
        Node { children: Vec::new(), is_dir }
    }

    /// Whether the node is a directory.
    pub fn is_dir(&self) -> (r: bool)
        ensures
            r == self.spec_is_dir(),
    {
        self.is_dir
    }

    /// The number of children.
    pub fn child_count(&self) -> (r: usize)
        ensures
            r == self.spec_children().len(),
    {
        self.children.len()
    }

    /// The node with the component path `names[from..]` inserted as `d`.
    fn inserted(self, names: &Vec<String>, from: usize, d: bool) -> (r: Node)
        requires
            from <= names.len(),
        ensures
            forall|q: Seq<Seq<char>>|
                #[trigger] kind_at(r, q) == kind_after_insert(
                    self,
                    names.deep_view().skip(from as int),
                    d,
                    q,
                ),
        decreases names.len() - from,
    {
        proof {
            use_type_invariant(&self);
        }
        let ghost old_self = self;
        let ghost cs = names.deep_view().skip(from as int);
        let Node { mut children, is_dir } = self;
        if from == names.len() {
            let r = Node { children, is_dir: d };
            proof {
                assert(cs.len() == 0);
                assert forall|q: Seq<Seq<char>>| #[trigger]
                    kind_at(r, q) == kind_after_insert(old_self, cs, d, q) by {
                    if q.len() == 0 {
                        assert(q =~= cs);
                    }
                }
            }
            return r;
        }
        let name = &names[from];
        let ghost nm = name@;
        assert(cs[0] == nm);
        let (pos, existing) = find_slot(&children, name);
        let ghost before = children@;
        proof {
            lemma_only_at(before, pos as int, nm, existing);
        }
        let (key, child) = if existing {
            children.remove(pos)
        } else {
            (name.clone(), Node::new(true))
        };
        let ghost old_child = child;
        proof {
            if existing {
                lemma_child_named_at(before, pos as int);
            } else {
                assert(child_named(before, nm) is None);
            }
        }
        let new_child = child.inserted(names, from + 1, d);
        proof {
            use_type_invariant(&new_child);
        }
        let ghost nc = new_child;
        children.insert(pos, (key, new_child));
        let ghost after = children@;
        proof {
            lemma_sorted_after(before, after, pos as int, existing, nm);
            assert forall|j: int| 0 <= j < after.len() implies (#[trigger] after[j]).1.tidy() by {
                if j == pos {
                    assert(after[j].1 == nc);
                } else if j < pos || existing {
                    assert(after[j] == before[j]);
                } else {
                    assert(after[j] == before[j - 1]);
                }
            }
        }
        let r = Node { children, is_dir };
        proof {
            assert(cs.drop_first() == names.deep_view().skip(from + 1));
            assert forall|q: Seq<Seq<char>>| #[trigger]
                kind_at(r, q) == kind_after_insert(old_self, cs, d, q) by {
                if q.len() == 0 {
                    assert(kind_at(r, q) == Some(is_dir));
                    assert(kind_at(old_self, q) == Some(is_dir));
                    assert(q != cs);
                } else if q[0] == nm {
                    lemma_child_named_at(after, pos as int);
                    let q1 = q.drop_first();
                    assert(kind_at(r, q) == kind_at(new_child, q1));
                    assert(kind_at(new_child, q1) == kind_after_insert(
                        old_child,
                        cs.drop_first(),
                        d,
                        q1,
                    ));
                    lemma_prefix_shift(q, cs);
                    if existing {
                        lemma_child_named_at(before, pos as int);
                        assert(kind_at(old_self, q) == kind_at(old_child, q1));
                    } else {
                        assert(kind_at(old_self, q) == None::<bool>);
                        assert(kind_at(old_child, q1) == (if q1.len() == 0 {
                            Some(true)
                        } else {
                            None::<bool>
                        }));
                    }
                    if q1.len() == 0 {
                        if cs.drop_first().len() == 0 {
                            assert(q1 =~= cs.drop_first());
                        } else {
                            assert(q1 =~= cs.drop_first().take(0));
                        }
                    }
                    assert(kind_at(r, q) == kind_after_insert(old_self, cs, d, q));
                } else {
                    lemma_other_child(before, after, pos as int, existing, q[0]);
                    assert(kind_at(r, q) == kind_at(old_self, q));
                    assert(q != cs);
                    if q.len() <= cs.len() && q == cs.take(q.len() as int) {
                        assert(q[0] == cs.take(q.len() as int)[0]);
                    }
                    assert(kind_at(r, q) == kind_after_insert(old_self, cs, d, q));
                }
            }
        }
        r
    }

    /// Inserts a relative path, marking its last component as a directory
    /// or a file; missing parents become directories.
    pub fn insert_path(&mut self, path: &str, is_dir: bool)
        ensures
            final(self).tidy(),
            forall|q: Seq<Seq<char>>|
                #[trigger] kind_at(*final(self), q) == kind_after_insert(
                    *old(self),
                    components(path@),
                    is_dir,
                    q,
                ),
    {
        let comps = components_of(&chars_of(path));
        let names = strings_of(&comps);
        assert(names.deep_view().skip(0) == components(path@));
        let mut current = Node::new(true);
        std::mem::swap(&mut current, self);
        let updated = current.inserted(&names, 0, is_dir);
        proof {
            use_type_invariant(&updated);
        }
        *self = updated;
    }
}

/// Where `name` belongs among sorted children: the position of the first
/// child not before it, and whether that child has the name.
fn find_slot(children: &Vec<(String, Node)>, name: &String) -> (r: (usize, bool))
    requires
        sorted_names(children@),
    ensures
        r.0 <= children.len(),
        forall|j: int| 0 <= j < r.0 ==> text_lt(#[trigger] children@[j].0@, name@),
        r.1 == (r.0 < children.len() && children@[r.0 as int].0@ == name@),
        !r.1 && r.0 < children.len() ==> text_lt(name@, children@[r.0 as int].0@),
{
    let nc = chars_of(name.as_str());
    let mut pos: usize = 0;
    while pos < children.len()
        invariant
            pos <= children.len(),
            nc@ == name@,
            forall|j: int| 0 <= j < pos ==> text_lt(#[trigger] children@[j].0@, name@),
        decreases children.len() - pos,
    {
        let c = chars_of(children[pos].0.as_str());
        if !text_less(&c, &nc) {
            let existing = same_text(children[pos].0.as_str(), name.as_str());
            proof {
                if !existing {
                    lemma_text_lt_total(children@[pos as int].0@, name@);
                }
            }
            return (pos, existing);
        }
        pos = pos + 1;
    }
    (pos, false)
}

proof fn lemma_only_at(before: Seq<(String, Node)>, pos: int, nm: Seq<char>, existing: bool)
    requires
        sorted_names(before),
        0 <= pos <= before.len(),
        forall|j: int| 0 <= j < pos ==> text_lt(#[trigger] before[j].0@, nm),
        existing == (pos < before.len() && before[pos].0@ == nm),
        !existing && pos < before.len() ==> text_lt(nm, before[pos].0@),
    ensures
        forall|j: int| 0 <= j < before.len() && before[j].0@ == nm ==> j == pos && existing,
{
    assert forall|j: int| 0 <= j < before.len() && before[j].0@ == nm implies j == pos
        && existing by {
        if j < pos {
            assert(text_lt(before[j].0@, nm));
            lemma_text_lt_irreflexive(nm);
        } else if j > pos {
            assert(text_lt(before[pos].0@, before[j].0@));
            if existing {
                lemma_text_lt_irreflexive(nm);
            } else {
                lemma_text_lt_asymmetric(nm, before[pos].0@);
            }
        }
    }
}

proof fn lemma_sorted_after(
    before: Seq<(String, Node)>,
    after: Seq<(String, Node)>,
    pos: int,
    existing: bool,
    nm: Seq<char>,
)
    requires
        sorted_names(before),
        0 <= pos <= before.len(),
        forall|j: int| 0 <= j < pos ==> text_lt(#[trigger] before[j].0@, nm),
        existing == (pos < before.len() && before[pos].0@ == nm),
        !existing && pos < before.len() ==> text_lt(nm, before[pos].0@),
        after.len() == (if existing { before.len() } else { before.len() + 1 }),
        after[pos].0@ == nm,
        forall|j: int|
            0 <= j < after.len() && j != pos ==> after[j] == (if j < pos || existing {
                before[j]
            } else {
                before[j - 1]
            }),
    ensures
        sorted_names(after),
{
    assert forall|a: int, b: int| 0 <= a < b < after.len() implies text_lt(
        #[trigger] after[a].0@,
        #[trigger] after[b].0@,
    ) by {
        let ia = if a < pos || existing { a } else { a - 1 };
        let ib = if b < pos || existing { b } else { b - 1 };
        if a == pos {
            if existing {
                assert(text_lt(before[pos].0@, before[b].0@));
            } else {
                if ib > pos {
                    lemma_text_lt_transitive(nm, before[pos].0@, before[ib].0@);
                }
            }
        } else if b == pos {
            assert(text_lt(before[a].0@, nm));
        } else {
            assert(after[a] == before[ia] && after[b] == before[ib]);
            assert(ia < ib);
        }
    }
}

proof fn lemma_other_child(
    before: Seq<(String, Node)>,
    after: Seq<(String, Node)>,
    pos: int,
    existing: bool,
    m: Seq<char>,
)
    requires
        sorted_names(before),
        sorted_names(after),
        0 <= pos < after.len(),
        after[pos].0@ != m,
        existing ==> pos < before.len() && before[pos].0@ != m,
        after.len() == (if existing { before.len() } else { before.len() + 1 }),
        forall|j: int|
            0 <= j < after.len() && j != pos ==> after[j] == (if j < pos || existing {
                before[j]
            } else {
                before[j - 1]
            }),
    ensures
        child_named(after, m) == child_named(before, m),
{
    if exists|j: int| named_at(before, m, j) {
        let j = choose|j: int| named_at(before, m, j);
        lemma_child_named_at(before, j);
        let ja = if j < pos || existing { j } else { j + 1 };
        assert(after[ja] == before[j]);
        lemma_child_named_at(after, ja);
    } else {
        assert forall|j: int| 0 <= j < after.len() implies after[j].0@ != m by {
            if j != pos {
                let jb = if j < pos || existing { j } else { j - 1 };
                assert(after[j] == before[jb]);
                assert(!named_at(before, m, jb));
            }
        }
        assert(!exists|j: int| named_at(after, m, j));
    }
}

/// How a path relates to an inserted path once both lose their first
/// component.
proof fn lemma_prefix_shift(q: Seq<Seq<char>>, cs: Seq<Seq<char>>)
    requires
        q.len() > 0,
        cs.len() > 0,
        q[0] == cs[0],
    ensures
        (q == cs) == (q.drop_first() == cs.drop_first()),
        (0 < q.len() < cs.len() && q == cs.take(q.len() as int)) == (q.drop_first().len()
            < cs.drop_first().len() && q.drop_first() == cs.drop_first().take(
            q.drop_first().len() as int,
        )),
{
    let q1 = q.drop_first();
    let c1 = cs.drop_first();
    if q1 == c1 {
        assert forall|k: int| 0 <= k < q.len() implies q[k] == cs[k] by {
            if k > 0 {
                assert(q[k] == q1[k - 1]);
                assert(cs[k] == c1[k - 1]);
            }
        }
        assert(q =~= cs);
    }
    if q1.len() < c1.len() && q1 == c1.take(q1.len() as int) {
        assert forall|k: int| 0 <= k < q.len() implies q[k] == cs.take(q.len() as int)[k] by {
            if k > 0 {
                assert(q[k] == q1[k - 1]);
                assert(cs[k] == c1[k - 1]);
                assert(q1[k - 1] == c1.take(q1.len() as int)[k - 1]);
            }
        }
        assert(q =~= cs.take(q.len() as int));
    }
    if 0 < q.len() < cs.len() && q == cs.take(q.len() as int) {
        assert(q1 =~= c1.take(q1.len() as int));
    }
}

// ----------------------------------------------------------------------------
// Drawing
// ----------------------------------------------------------------------------

/// The drawing of the first `i` children of `n` and everything below
/// them: each child on a line of its own, after `indent` and a connector
/// (`└── ` for the last child, `├── ` otherwise), with `/` after a
/// directory's name; a child's own children follow it, indented by four
/// more columns (`│   ` below a child that is not the last).
pub closed spec fn render_upto(n: Node, indent: Seq<char>, i: int) -> Seq<char>
    decreases n, i,
{
    if i <= 0 || i > n.children@.len() {
        Seq::<char>::empty()
    } else {
        let last = i == n.children@.len();
        let entry = n.children@[i - 1];
        let child = entry.1;
        render_upto(n, indent, i - 1) + indent + (if last {
            "└── "@
        } else {
            "├── "@
        }) + entry.0@ + (if child.is_dir {
            "/"@
        } else {
            Seq::<char>::empty()
        }) + "\n"@ + (if child.children@.len() > 0 {
            render_upto(
                child,
                indent + (if last {
                    "    "@
                } else {
                    "│   "@
                }),
                child.children@.len() as int,
            )
        } else {
            Seq::<char>::empty()
        })
    }
}

/// What a tidy node's children are, in terms of what is at each path:
/// they are in strictly increasing name order and tidy; a name is a
/// child's exactly where something is at that one-component path; and
/// what is below a child is what is below the node at the child's name.
pub proof fn lemma_tidy_children(n: Node)
    requires
        n.tidy(),
    ensures
        sorted_names(n.spec_children()),
        forall|i: int| 0 <= i < n.spec_children().len() ==> (#[trigger] n.spec_children()[i]).1.tidy(),
        forall|x: Seq<char>| #[trigger] has_name(n.spec_children(), x) <==> kind_at(n, seq![x]) is Some,
        forall|i: int, q: Seq<Seq<char>>|
            0 <= i < n.spec_children().len() ==> #[trigger] kind_at(n.spec_children()[i].1, q)
                == kind_at(n, seq![n.spec_children()[i].0@] + q),
{
    assert forall|x: Seq<char>| #[trigger] has_name(n.spec_children(), x) <==> kind_at(n, seq![x]) is Some by {
        lemma_has_name_kind(n, x);
    }
    assert forall|i: int, q: Seq<Seq<char>>|
        0 <= i < n.spec_children().len() implies #[trigger] kind_at(n.spec_children()[i].1, q)
            == kind_at(n, seq![n.spec_children()[i].0@] + q) by {
        lemma_child_named_at(n.children@, i);
        let p = seq![n.children@[i].0@] + q;
        assert(p[0] == n.children@[i].0@);
        assert(p.drop_first() == q);
    }
}

/// The drawing of the first `i` children, one child at a time: nothing
/// for no child; else the drawing of the first `i - 1`, then the line of
/// child `i - 1` (indent, connector, name, `/` for a directory) and the
/// drawing of that child's own children, indented by four more columns.
pub proof fn lemma_render_upto_step(n: Node, indent: Seq<char>, i: int)
    ensures
        i <= 0 || i > n.spec_children().len() ==> render_upto(n, indent, i) == Seq::<char>::empty(),
        0 < i <= n.spec_children().len() ==> render_upto(n, indent, i) == {
            let last = i == n.spec_children().len();
            let entry = n.spec_children()[i - 1];
            let child = entry.1;
            render_upto(n, indent, i - 1) + indent + (if last {
                "└── "@
            } else {
                "├── "@
            }) + entry.0@ + (if child.spec_is_dir() {
                "/"@
            } else {
                Seq::<char>::empty()
            }) + "\n"@ + (if child.spec_children().len() > 0 {
                render_upto(
                    child,
                    indent + (if last {
                        "    "@
                    } else {
                        "│   "@
                    }),
                    child.spec_children().len() as int,
                )
            } else {
                Seq::<char>::empty()
            })
        },
{
}

/// The drawing of all children of `n` below `indent`.
pub open spec fn render(n: Node, indent: Seq<char>) -> Seq<char> {
    render_upto(n, indent, n.spec_children().len() as int)
}

/// Whether some child is called `x`.
pub open spec fn has_name(cs: Seq<(String, Node)>, x: Seq<char>) -> bool {
    exists|i: int| named_at(cs, x, i)
}

proof fn lemma_sorted_tail(cs: Seq<(String, Node)>)
    requires
        sorted_names(cs),
        cs.len() > 0,
    ensures
        sorted_names(cs.drop_first()),
        forall|x: Seq<char>|
            #[trigger] has_name(cs.drop_first(), x) <==> (has_name(cs, x) && x != cs[0].0@),
{
    let t = cs.drop_first();
    assert forall|a: int, b: int| 0 <= a < b < t.len() implies text_lt(
        #[trigger] t[a].0@,
        #[trigger] t[b].0@,
    ) by {
        assert(t[a] == cs[a + 1] && t[b] == cs[b + 1]);
    }
    assert forall|x: Seq<char>| #[trigger] has_name(t, x) <==> (has_name(cs, x) && x != cs[0].0@) by {
        if has_name(t, x) {
            let i = choose|i: int| named_at(t, x, i);
            assert(named_at(cs, x, i + 1));
            assert(text_lt(cs[0].0@, cs[i + 1].0@));
            if x == cs[0].0@ {
                lemma_text_lt_irreflexive(x);
            }
        }
        if has_name(cs, x) && x != cs[0].0@ {
            let i = choose|i: int| named_at(cs, x, i);
            assert(i != 0);
            assert(named_at(t, x, i - 1));
        }
    }
}

/// Two child lists in strictly increasing name order with the same names
/// have the same names at every position.
proof fn lemma_same_names(c1: Seq<(String, Node)>, c2: Seq<(String, Node)>)
    requires
        sorted_names(c1),
        sorted_names(c2),
        forall|x: Seq<char>| #[trigger] has_name(c1, x) <==> has_name(c2, x),
    ensures
        c1.len() == c2.len(),
        forall|i: int| 0 <= i < c1.len() ==> (#[trigger] c1[i]).0@ == c2[i].0@,
    decreases c1.len(),
{
    if c1.len() == 0 {
        if c2.len() > 0 {
            assert(named_at(c2, c2[0].0@, 0));
            assert(has_name(c2, c2[0].0@));
            assert(has_name(c1, c2[0].0@));
        }
    } else if c2.len() == 0 {
        assert(named_at(c1, c1[0].0@, 0));
        assert(has_name(c1, c1[0].0@));
        assert(!has_name(c2, c1[0].0@));
    } else {
        let x1 = c1[0].0@;
        let x2 = c2[0].0@;
        assert(named_at(c1, x1, 0));
        assert(has_name(c1, x1));
        assert(named_at(c2, x2, 0));
        assert(has_name(c2, x2));
        assert(has_name(c2, x1));
        assert(has_name(c1, x2));
        let j = choose|j: int| named_at(c2, x1, j);
        let k = choose|k: int| named_at(c1, x2, k);
        if j > 0 && k > 0 {
            assert(text_lt(x2, c2[j].0@));
            assert(text_lt(x1, c1[k].0@));
            lemma_text_lt_asymmetric(x1, x2);
        }
        if j > 0 && k == 0 {
            assert(text_lt(x2, x1));
            lemma_text_lt_irreflexive(x1);
        }
        assert(x1 == x2);
        lemma_sorted_tail(c1);
        lemma_sorted_tail(c2);
        let t1 = c1.drop_first();
        let t2 = c2.drop_first();
        assert forall|x: Seq<char>| #[trigger] has_name(t1, x) <==> has_name(t2, x) by {
            assert(has_name(t1, x) <==> (has_name(c1, x) && x != x1));
            assert(has_name(t2, x) <==> (has_name(c2, x) && x != x2));
        }
        lemma_same_names(t1, t2);
        assert forall|i: int| 0 <= i < c1.len() implies (#[trigger] c1[i]).0@ == c2[i].0@ by {
            if i > 0 {
                assert(t1[i - 1] == c1[i]);
                assert(t2[i - 1] == c2[i]);
            }
        }
    }
}

proof fn lemma_has_name_kind(n: Node, x: Seq<char>)
    ensures
        has_name(n.children@, x) <==> kind_at(n, seq![x]) is Some,
{
    let p = seq![x];
    assert(p[0] == x);
    assert(p.drop_first() =~= Seq::<Seq<char>>::empty());
    if has_name(n.children@, x) {
        let c = child_named(n.children@, x)->0;
        assert(kind_at(c, p.drop_first()) == Some(c.spec_is_dir()));
    }
}

/// Two tidy nodes with the same thing at every path have the same
/// children names, in the same order, and children with the same thing at
/// every path.
proof fn lemma_same_children(a: Node, b: Node)
    requires
        a.tidy(),
        b.tidy(),
        forall|q: Seq<Seq<char>>| #[trigger] kind_at(a, q) == kind_at(b, q),
    ensures
        a.children@.len() == b.children@.len(),
        a.is_dir == b.is_dir,
        forall|i: int|
            0 <= i < a.children@.len() ==> (#[trigger] a.children@[i]).0@ == b.children@[i].0@
                && a.children@[i].1.is_dir == b.children@[i].1.is_dir,
        forall|i: int, q: Seq<Seq<char>>|
            0 <= i < a.children@.len() ==> #[trigger] kind_at(a.children@[i].1, q) == kind_at(
                b.children@[i].1,
                q,
            ),
{
    assert(kind_at(a, Seq::empty()) == kind_at(b, Seq::empty()));
    assert forall|x: Seq<char>| #[trigger] has_name(a.children@, x) <==> has_name(b.children@, x) by {
        lemma_has_name_kind(a, x);
        lemma_has_name_kind(b, x);
        assert(kind_at(a, seq![x]) == kind_at(b, seq![x]));
    }
    lemma_same_names(a.children@, b.children@);
    assert forall|i: int, q: Seq<Seq<char>>|
        0 <= i < a.children@.len() implies #[trigger] kind_at(a.children@[i].1, q) == kind_at(
            b.children@[i].1,
            q,
        ) by {
        let x = a.children@[i].0@;
        lemma_child_named_at(a.children@, i);
        lemma_child_named_at(b.children@, i);
        let p = seq![x] + q;
        assert(p[0] == x);
        assert(p.drop_first() == q);
        assert(kind_at(a, p) == kind_at(b, p));
    }
    assert forall|i: int|
        0 <= i < a.children@.len() implies (#[trigger] a.children@[i]).0@ == b.children@[i].0@
            && a.children@[i].1.is_dir == b.children@[i].1.is_dir by {
        assert(kind_at(a.children@[i].1, Seq::empty()) == kind_at(b.children@[i].1, Seq::empty()));
    }
}

proof fn lemma_render_upto_same(a: Node, b: Node, indent: Seq<char>, i: int)
    requires
        a.tidy(),
        b.tidy(),
        forall|q: Seq<Seq<char>>| #[trigger] kind_at(a, q) == kind_at(b, q),
    ensures
        render_upto(a, indent, i) == render_upto(b, indent, i),
    decreases a, i,
{
    lemma_same_children(a, b);
    if 0 < i <= a.children@.len() {
        lemma_render_upto_same(a, b, indent, i - 1);
        let ca = a.children@[i - 1].1;
        let cb = b.children@[i - 1].1;
        assert(ca.tidy());
        assert(cb.tidy());
        assert forall|q: Seq<Seq<char>>| #[trigger] kind_at(ca, q) == kind_at(cb, q) by {
            assert(kind_at(a.children@[i - 1].1, q) == kind_at(b.children@[i - 1].1, q));
        }
        lemma_same_children(ca, cb);
        let last = i == a.children@.len();
        let deeper = indent + (if last {
            "    "@
        } else {
            "│   "@
        });
        lemma_render_upto_same(ca, cb, deeper, ca.children@.len() as int);
    }
}

/// The drawing of a tree depends only on what is at each path: two trees
/// with the same files and directories at the same paths are drawn alike.
pub proof fn law_drawing_depends_only_on_contents(a: Node, b: Node, indent: Seq<char>)
    requires
        a.tidy(),
        b.tidy(),
        forall|q: Seq<Seq<char>>| #[trigger] kind_at(a, q) == kind_at(b, q),
    ensures
        render(a, indent) == render(b, indent),
{
    lemma_same_children(a, b);
    lemma_render_upto_same(a, b, indent, a.children@.len() as int);
}

impl Node {
    fn render_into(&self, indent: &String, out: &mut String)
        ensures
            final(out)@ == old(out)@ + render(*self, indent@),
        decreases self,
    {
        let ghost start = out@;
        let n = self.children.len();
        let mut i: usize = 0;
        assert(out@ == start + render_upto(*self, indent@, 0));
        while i < n
            invariant
                n == self.children.len(),
                i <= n,
                out@ == start + render_upto(*self, indent@, i as int),
            decreases n - i,
        {
            let last = i + 1 == n;
            let name = &self.children[i].0;
            let child = &self.children[i].1;
            push_str(out, indent.as_str());
            if last {
                push_str(out, "└── ");
            } else {
                push_str(out, "├── ");
            }
            push_str(out, name.as_str());
            if child.is_dir {
                push_str(out, "/");
            }
            push_str(out, "\n");
            if child.children.len() > 0 {
                let mut deeper = indent.clone();
                if last {
                    push_str(&mut deeper, "    ");
                } else {
                    push_str(&mut deeper, "│   ");
                }
                child.render_into(&deeper, out);
            }
            proof {
                let e = self.children@[i as int];
                assert(e.1 == *child);
                assert(e.0 == *name);
            }
            assert(out@ =~= start + render_upto(*self, indent@, i + 1));
            i = i + 1;
        }
    }

    /// The drawing of the node's children below `indent`.
    pub fn print(&self, indent: &str) -> (r: String)
        ensures
            r@ == render(*self, indent@),
    {
        let mut out = String::new();
        let ind = indent.to_owned();
        self.render_into(&ind, &mut out);
        assert(out@ =~= render(*self, indent@));
        out
    }
}

} // verus!
