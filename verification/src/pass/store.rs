use crate::text::{
    append, copy, ends_with, ends_with_exec, lemma_lex_lt_asymmetric, lemma_lex_lt_transitive,
    lex_lt, lex_lt_exec, lowercase, starts_with, starts_with_exec, string_of, string_of_range,
    to_chars, to_lowercase,
};
use crate::order::{lemma_select_append, lemma_select_none, lemma_select_single, select};
use vstd::prelude::*;

verus! {

/// A node in the password store tree (directory or .gpg entry).
#[derive(Debug)]
pub struct StoreNode {
    pub name: String,
    pub path: String,
    pub is_dir: bool,
    pub children: Vec<StoreNode>,
    pub expanded: bool,
}

/// A flattened, visible entry ready for list rendering.
#[derive(Debug, Clone)]
pub struct FlatEntry {
    pub name: String,
    pub path: String,
    pub is_dir: bool,
    pub depth: usize,
    pub expanded: bool,
    pub has_children: bool,
}

/// A store node as a mathematical tree.
pub struct NodeView {
    pub name: Seq<char>,
    pub path: Seq<char>,
    pub is_dir: bool,
    pub children: Seq<NodeView>,
    pub expanded: bool,
}

pub open spec fn node_view(n: StoreNode) -> NodeView
    decreases n,
{
    NodeView {
        name: n.name@,
        path: n.path@,
        is_dir: n.is_dir,
        children: nodes_view(n.children@),
        expanded: n.expanded,
    }
}

pub open spec fn nodes_view(ns: Seq<StoreNode>) -> Seq<NodeView>
    decreases ns,
{
    if ns.len() == 0 {
        seq![]
    } else {
        seq![node_view(ns[0])] + nodes_view(ns.subrange(1, ns.len() as int))
    }
}


pub proof fn lemma_nodes_view(ns: Seq<StoreNode>)
    ensures
        nodes_view(ns).len() == ns.len(),
        forall|i: int| 0 <= i < ns.len() ==> #[trigger] nodes_view(ns)[i] == node_view(ns[i]),
    decreases ns.len(),
{
    if ns.len() > 0 {
        let rest = ns.subrange(1, ns.len() as int);
        lemma_nodes_view(rest);
        assert forall|i: int| 0 <= i < ns.len() implies #[trigger] nodes_view(ns)[i] == node_view(
            ns[i],
        ) by {
            if i > 0 {
                assert(nodes_view(ns)[i] == nodes_view(rest)[i - 1]);
                assert(rest[i - 1] == ns[i]);
            }
        }
    }
}

/// The view of a sequence of nodes, element by element.
pub proof fn lemma_nodes_view_ext(a: Seq<StoreNode>, b: Seq<NodeView>)
    requires
        a.len() == b.len(),
        forall|i: int| 0 <= i < a.len() ==> node_view(#[trigger] a[i]) == b[i],
    ensures
        nodes_view(a) == b,
{
    lemma_nodes_view(a);
    assert(nodes_view(a) =~= b);
}

/// A flattened entry as plain values: name, path, directory, depth, expanded, has children.
pub open spec fn flat_view(e: FlatEntry) -> (Seq<char>, Seq<char>, bool, nat, bool, bool) {
    (e.name@, e.path@, e.is_dir, e.depth as nat, e.expanded, e.has_children)
}

pub open spec fn flat_views(es: Seq<FlatEntry>) -> Seq<(Seq<char>, Seq<char>, bool, nat, bool, bool)> {
    es.map_values(|e: FlatEntry| flat_view(e))
}

/// The entry that lists node `n` at `depth`.
pub open spec fn entry_of(n: NodeView, depth: nat) -> (Seq<char>, Seq<char>, bool, nat, bool, bool) {
    (n.name, n.path, n.is_dir, depth, n.expanded, n.children.len() > 0)
}

/// The entries that list the trees `ns` at `depth`, each node before its children;
/// the children of a directory are listed when it is expanded, or always when `all`.
pub open spec fn flat(ns: Seq<NodeView>, depth: nat, all: bool) -> Seq<
    (Seq<char>, Seq<char>, bool, nat, bool, bool),
>
    decreases ns,
{
    if ns.len() == 0 {
        seq![]
    } else {
        let n = ns[0];
        seq![entry_of(n, depth)] + (if n.is_dir && (all || n.expanded) {
            flat(n.children, depth + 1, all)
        } else {
            seq![]
        }) + flat(ns.subrange(1, ns.len() as int), depth, all)
    }
}

/// How deeply directories nest in `ns`.
pub open spec fn height(ns: Seq<NodeView>) -> nat
    decreases ns,
{
    if ns.len() == 0 {
        0
    } else {
        let here: nat = if ns[0].is_dir {
            1 + height(ns[0].children)
        } else {
            0
        };
        let rest = height(ns.subrange(1, ns.len() as int));
        if here > rest {
            here
        } else {
            rest
        }
    }
}

fn flatten_into(nodes: &[StoreNode], depth: usize, all: bool, out: &mut Vec<FlatEntry>)
    requires
        depth + height(nodes_view(nodes@)) <= usize::MAX,
    ensures
        flat_views(final(out)@) == flat_views(old(out)@) + flat(nodes_view(nodes@), depth as nat, all),
    decreases nodes@,
{
    let ghost nv = nodes_view(nodes@);
    let ghost out0 = out@;
    proof {
        lemma_nodes_view(nodes@);
        assert(nv.skip(0) =~= nv);
    }
    let mut i: usize = 0;
    while i < nodes.len()
        invariant
            i <= nodes.len(),
            nv == nodes_view(nodes@),
            nv.len() == nodes@.len(),
            forall|k: int| 0 <= k < nodes@.len() ==> #[trigger] nv[k] == node_view(nodes@[k]),
            depth + height(nv.skip(i as int)) <= usize::MAX,
            flat_views(out0) + flat(nv, depth as nat, all) == flat_views(out@) + flat(
                nv.skip(i as int),
                depth as nat,
                all,
            ),
        decreases nodes.len() - i,
    {
        let node = &nodes[i];
        let ghost rest = nv.skip(i as int);
        let ghost before = out@;
        proof {
            assert(rest[0] == node_view(*node));
            assert(rest.subrange(1, rest.len() as int) =~= nv.skip(i + 1));
        }
        out.push(
            FlatEntry {
                name: node.name.clone(),
                path: node.path.clone(),
                is_dir: node.is_dir,
                depth,
                expanded: node.expanded,
                has_children: node.children.len() > 0,
            },
        );
        proof {
            lemma_nodes_view(node.children@);
            assert(flat_views(out@) =~= flat_views(before).push(entry_of(rest[0], depth as nat)));
        }
        if node.is_dir && (all || node.expanded) {
            proof {
                assert(decreases_to!(nodes@ => nodes@[i as int]));
                assert(decreases_to!(nodes@[i as int] => nodes@[i as int].children));
                assert(decreases_to!(nodes@[i as int].children => nodes@[i as int].children@));
            }
            flatten_into(node.children.as_slice(), depth + 1, all, out);
        }
        proof {
            assert(height(rest) >= height(nv.skip(i + 1)));
        }
        i += 1;
    }
    proof {
        assert(nv.skip(i as int).len() == 0);
        assert(flat_views(out@) + flat(nv.skip(i as int), depth as nat, all) =~= flat_views(out@));
    }
}

/// Flattens the tree into a list of visible entries respecting expand/collapse state.
pub fn flatten_tree(nodes: &[StoreNode], depth: usize, out: &mut Vec<FlatEntry>)
    requires
        depth + height(nodes_view(nodes@)) <= usize::MAX,
    ensures
        flat_views(final(out)@) == flat_views(old(out)@) + flat(nodes_view(nodes@), depth as nat, false),
{
    flatten_into(nodes, depth, false, out)
}

/// Flattens the entire tree, ignoring expand/collapse state. Used for search, so
/// matches inside collapsed directories are still found.
pub fn flatten_tree_all(nodes: &[StoreNode], depth: usize, out: &mut Vec<FlatEntry>)
    requires
        depth + height(nodes_view(nodes@)) <= usize::MAX,
    ensures
        flat_views(final(out)@) == flat_views(old(out)@) + flat(nodes_view(nodes@), depth as nat, true),
{
    flatten_into(nodes, depth, true, out)
}


/// The trees `ns` with the first directory whose path is `p` (in the order that lists
/// each node before its children) flipped between expanded and collapsed, and whether
/// there was one. Only directories are searched.
pub open spec fn toggled(ns: Seq<NodeView>, p: Seq<char>) -> (Seq<NodeView>, bool)
    decreases ns,
{
    if ns.len() == 0 {
        (ns, false)
    } else {
        let n = ns[0];
        let rest = ns.subrange(1, ns.len() as int);
        if n.path == p && n.is_dir {
            (seq![NodeView { expanded: !n.expanded, ..n }] + rest, true)
        } else if n.is_dir && toggled(n.children, p).1 {
            (seq![NodeView { children: toggled(n.children, p).0, ..n }] + rest, true)
        } else {
            (seq![n] + toggled(rest, p).0, toggled(rest, p).1)
        }
    }
}

/// Toggling the same folder twice leaves the trees as they were.
pub proof fn lemma_toggle_twice(ns: Seq<NodeView>, p: Seq<char>)
    ensures
        toggled(toggled(ns, p).0, p) == (ns, toggled(ns, p).1),
    decreases ns,
{
    if ns.len() > 0 {
        let n = ns[0];
        let rest = ns.subrange(1, ns.len() as int);
        let once = toggled(ns, p).0;
        assert(decreases_to!(ns => ns[0]));
        assert(decreases_to!(ns[0] => ns[0].children));
        if n.path == p && n.is_dir {
            assert(once.subrange(1, once.len() as int) =~= rest);
            assert(seq![n] + rest =~= ns);
        } else if n.is_dir && toggled(n.children, p).1 {
            lemma_toggle_twice(n.children, p);
            assert(once.subrange(1, once.len() as int) =~= rest);
            assert(once[0].children == toggled(n.children, p).0);
            assert(seq![NodeView { children: n.children, ..n }] + rest =~= ns);
        } else {
            lemma_toggle_twice(rest, p);
            assert(once.subrange(1, once.len() as int) =~= toggled(rest, p).0);
            assert(seq![n] + rest =~= ns);
        }
    }
}

/// Whether a directory with path `p` is among the trees `ns`.
fn has_dir(nodes: &[StoreNode], p: &Vec<char>) -> (r: bool)
    ensures
        r == toggled(nodes_view(nodes@), p@).1,
    decreases nodes@,
{
    let ghost nv = nodes_view(nodes@);
    proof {
        lemma_nodes_view(nodes@);
        assert(nv.skip(0) =~= nv);
    }
    let mut i: usize = 0;
    while i < nodes.len()
        invariant
            i <= nodes.len(),
            nv == nodes_view(nodes@),
            nv.len() == nodes@.len(),
            forall|k: int| 0 <= k < nodes@.len() ==> #[trigger] nv[k] == node_view(nodes@[k]),
            toggled(nv, p@).1 == toggled(nv.skip(i as int), p@).1,
        decreases nodes.len() - i,
    {
        let ghost rest = nv.skip(i as int);
        proof {
            assert(rest[0] == node_view(nodes@[i as int]));
            assert(rest.subrange(1, rest.len() as int) =~= nv.skip(i + 1));
        }
        if nodes[i].is_dir {
            if crate::text::eq(&to_chars(nodes[i].path.as_str()), p) {
                return true;
            }
            proof {
                assert(decreases_to!(nodes@ => nodes@[i as int]));
                assert(decreases_to!(nodes@[i as int] => nodes@[i as int].children));
                assert(decreases_to!(nodes@[i as int].children => nodes@[i as int].children@));
            }
            if has_dir(nodes[i].children.as_slice(), p) {
                return true;
            }
        }
        i += 1;
    }
    false
}

/// Toggles the expand state of the node at `path` in the tree. Returns `true` if found.
pub fn toggle_node(nodes: &mut Vec<StoreNode>, path: &str) -> (r: bool)
    ensures
        r == toggled(nodes_view(old(nodes)@), path@).1,
        nodes_view(final(nodes)@) == toggled(nodes_view(old(nodes)@), path@).0,
    decreases old(nodes)@,
{
    let ghost nv = nodes_view(nodes@);
    let ghost n0 = nodes@;
    let p = to_chars(path);
    proof {
        lemma_nodes_view(nodes@);
        assert(nv.skip(0) =~= nv);
        assert(nv.take(0) + toggled(nv.skip(0), path@).0 =~= toggled(nv, path@).0);
    }
    let mut i: usize = 0;
    while i < nodes.len()
        invariant
            i <= nodes.len(),
            nodes@ == n0,
            n0 == old(nodes)@,
            nv == nodes_view(n0),
            nv.len() == n0.len(),
            forall|k: int| 0 <= k < n0.len() ==> #[trigger] nv[k] == node_view(n0[k]),
            p@ == path@,
            toggled(nv, path@).1 == toggled(nv.skip(i as int), path@).1,
            toggled(nv, path@).0 == nv.take(i as int) + toggled(nv.skip(i as int), path@).0,
        decreases nodes.len() - i,
    {
        let ghost rest = nv.skip(i as int);
        proof {
            assert(rest[0] == node_view(n0[i as int]));
            assert(rest.subrange(1, rest.len() as int) =~= nv.skip(i + 1));
        }
        let here = crate::text::eq(&to_chars(nodes[i].path.as_str()), &p);
        if here && nodes[i].is_dir {
            let mut node = nodes.remove(i);
            node.expanded = !node.expanded;
            nodes.insert(i, node);
            proof {
                lemma_nodes_view(nodes@);
                let want = toggled(nv, path@).0;
                assert(want =~= nv.take(i as int) + (seq![NodeView { expanded: !rest[0].expanded, ..rest[0] }] + nv.skip(i + 1)));
                assert forall|k: int| 0 <= k < nodes@.len() implies node_view(#[trigger] nodes@[k]) == want[k] by {
                    if k != i {
                        assert(nodes@[k] == n0[k]);
                    }
                }
                lemma_nodes_view_ext(nodes@, want);
            }
            return true;
        }
        if nodes[i].is_dir && has_dir(nodes[i].children.as_slice(), &p) {
            let mut node = nodes.remove(i);
            proof {
                assert(node == n0[i as int]);
                assert(decreases_to!(n0 => n0[i as int]));
                assert(decreases_to!(n0[i as int] => n0[i as int].children));
                assert(decreases_to!(n0[i as int].children => n0[i as int].children@));
            }
            let found = toggle_node(&mut node.children, path);
            nodes.insert(i, node);
            proof {
                lemma_nodes_view(nodes@);
                let want = toggled(nv, path@).0;
                assert(want =~= nv.take(i as int) + (seq![NodeView { children: toggled(rest[0].children, path@).0, ..rest[0] }] + nv.skip(i + 1)));
                assert forall|k: int| 0 <= k < nodes@.len() implies node_view(#[trigger] nodes@[k]) == want[k] by {
                    if k != i {
                        assert(nodes@[k] == n0[k]);
                    }
                }
                lemma_nodes_view_ext(nodes@, want);
            }
            return true;
        }
        proof {
            assert(nv.take(i + 1) =~= nv.take(i as int).push(rest[0]));
            assert(nv.take(i as int) + toggled(rest, path@).0 =~= nv.take(i + 1) + toggled(nv.skip(i + 1), path@).0);
        }
        i += 1;
    }
    proof {
        assert(nv.skip(i as int).len() == 0);
        assert(nv.take(i as int) =~= nv);
        assert(nodes_view(nodes@) =~= nv.take(i as int) + toggled(nv.skip(i as int), path@).0);
    }
    false
}

/// The paths of the collapsed directories in `ns`, each node before its children.
pub open spec fn collapsed(ns: Seq<NodeView>) -> Seq<Seq<char>>
    decreases ns,
{
    if ns.len() == 0 {
        seq![]
    } else {
        let n = ns[0];
        (if n.is_dir && !n.expanded {
            seq![n.path]
        } else {
            seq![]
        }) + collapsed(n.children) + collapsed(ns.subrange(1, ns.len() as int))
    }
}

pub fn collapsed_paths(nodes: &[StoreNode]) -> (r: Vec<String>)
    ensures
        crate::text::string_views(r@) == collapsed(nodes_view(nodes@)),
    decreases nodes@,
{
    let ghost nv = nodes_view(nodes@);
    proof {
        lemma_nodes_view(nodes@);
        assert(nv.skip(0) =~= nv);
    }
    let mut paths: Vec<String> = Vec::new();
    let mut i: usize = 0;
    assert(crate::text::string_views(paths@) =~= seq![]);
    while i < nodes.len()
        invariant
            i <= nodes.len(),
            nv == nodes_view(nodes@),
            nv.len() == nodes@.len(),
            forall|k: int| 0 <= k < nodes@.len() ==> #[trigger] nv[k] == node_view(nodes@[k]),
            collapsed(nv) == crate::text::string_views(paths@) + collapsed(nv.skip(i as int)),
        decreases nodes.len() - i,
    {
        let node = &nodes[i];
        let ghost rest = nv.skip(i as int);
        let ghost before = paths@;
        proof {
            assert(rest[0] == node_view(*node));
            assert(rest.subrange(1, rest.len() as int) =~= nv.skip(i + 1));
        }
        if node.is_dir && !node.expanded {
            paths.push(node.path.clone());
        }
        proof {
            assert(decreases_to!(nodes@ => nodes@[i as int]));
            assert(decreases_to!(nodes@[i as int] => nodes@[i as int].children));
            assert(decreases_to!(nodes@[i as int].children => nodes@[i as int].children@));
        }
        let inner = collapsed_paths(node.children.as_slice());
        let ghost mid = paths@;
        let mut j: usize = 0;
        assert(crate::text::string_views(inner@).take(0) =~= seq![]);
        assert(crate::text::string_views(paths@) =~= crate::text::string_views(mid) + crate::text::string_views(inner@).take(0));
        while j < inner.len()
            invariant
                j <= inner.len(),
                crate::text::string_views(paths@) == crate::text::string_views(mid)
                    + crate::text::string_views(inner@).take(j as int),
            decreases inner.len() - j,
        {
            let ghost pre = paths@;
            paths.push(inner[j].clone());
            assert(crate::text::string_views(paths@) =~= crate::text::string_views(pre).push(inner@[j as int]@));
            assert(crate::text::string_views(inner@).take(j + 1) =~= crate::text::string_views(inner@).take(j as int).push(inner@[j as int]@));
            j += 1;
        }
        proof {
            assert(crate::text::string_views(inner@).take(inner.len() as int) =~= crate::text::string_views(inner@));
            if node.is_dir && !node.expanded {
                assert(crate::text::string_views(mid) =~= crate::text::string_views(before).push(node.path@));
            }
            assert(crate::text::string_views(paths@) =~= crate::text::string_views(before) + ((if rest[0].is_dir && !rest[0].expanded {
                seq![rest[0].path]
            } else {
                seq![]
            }) + collapsed(rest[0].children)));
        }
        i += 1;
    }
    proof {
        assert(nv.skip(i as int).len() == 0);
        assert(collapsed(nv) =~= crate::text::string_views(paths@));
    }
    paths
}

/// Node `n` with itself expanded, if it is a directory whose path followed by `/`
/// begins `p`, and the same done within its children.
pub open spec fn reveal_one(n: NodeView, p: Seq<char>) -> NodeView
    decreases n,
{
    if n.is_dir && starts_with(p, n.path.push('/')) {
        NodeView { expanded: true, children: revealed(n.children, p), ..n }
    } else {
        n
    }
}

/// The trees `ns` with every directory whose path followed by `/` begins `p` expanded.
pub open spec fn revealed(ns: Seq<NodeView>, p: Seq<char>) -> Seq<NodeView>
    decreases ns,
{
    if ns.len() == 0 {
        ns
    } else {
        seq![reveal_one(ns[0], p)] + revealed(ns.subrange(1, ns.len() as int), p)
    }
}

pub proof fn lemma_revealed(ns: Seq<NodeView>, p: Seq<char>)
    ensures
        revealed(ns, p).len() == ns.len(),
        forall|k: int| 0 <= k < ns.len() ==> #[trigger] revealed(ns, p)[k] == reveal_one(ns[k], p),
    decreases ns.len(),
{
    if ns.len() > 0 {
        let rest = ns.subrange(1, ns.len() as int);
        lemma_revealed(rest, p);
        assert forall|k: int| 0 <= k < ns.len() implies #[trigger] revealed(ns, p)[k] == reveal_one(ns[k], p) by {
            if k > 0 {
                assert(revealed(ns, p)[k] == revealed(rest, p)[k - 1]);
                assert(rest[k - 1] == ns[k]);
            }
        }
    }
}

/// Expands every directory on the way to `path`.
pub fn reveal_path(nodes: &mut Vec<StoreNode>, path: &str)
    ensures
        nodes_view(final(nodes)@) == revealed(nodes_view(old(nodes)@), path@),
    decreases old(nodes)@,
{
    let ghost nv = nodes_view(nodes@);
    let ghost n0 = nodes@;
    let p = to_chars(path);
    proof {
        lemma_nodes_view(nodes@);
        lemma_revealed(nv, path@);
    }
    let mut i: usize = 0;
    while i < nodes.len()
        invariant
            i <= nodes.len(),
            nodes@.len() == n0.len(),
            n0 == old(nodes)@,
            nv == nodes_view(n0),
            nv.len() == n0.len(),
            forall|k: int| 0 <= k < n0.len() ==> #[trigger] nv[k] == node_view(n0[k]),
            forall|k: int| i <= k < n0.len() ==> #[trigger] nodes@[k] == n0[k],
            forall|k: int| 0 <= k < i ==> node_view(#[trigger] nodes@[k]) == reveal_one(nv[k], path@),
            p@ == path@,
        decreases nodes.len() - i,
    {
        let ghost cur = nodes@;
        let mut prefix = to_chars(nodes[i].path.as_str());
        prefix.push('/');
        if nodes[i].is_dir && starts_with_exec(&p, &prefix) {
            let mut node = nodes.remove(i);
            proof {
                assert(node == n0[i as int]);
                assert(decreases_to!(n0 => n0[i as int]));
                assert(decreases_to!(n0[i as int] => n0[i as int].children));
                assert(decreases_to!(n0[i as int].children => n0[i as int].children@));
            }
            reveal_path(&mut node.children, path);
            node.expanded = true;
            nodes.insert(i, node);
        }
        proof {
            assert(prefix@ == n0[i as int].path@.push('/'));
            assert forall|k: int| 0 <= k < i + 1 implies node_view(#[trigger] nodes@[k]) == reveal_one(nv[k], path@) by {
                if k < i {
                    assert(nodes@[k] == cur[k]);
                }
            }
            assert forall|k: int| i + 1 <= k < n0.len() implies #[trigger] nodes@[k] == n0[k] by {
                assert(nodes@[k] == cur[k]);
            }
        }
        i += 1;
    }
    proof {
        lemma_revealed(nv, path@);
        lemma_nodes_view_ext(nodes@, revealed(nv, path@));
    }
}


/// Strictly before in the order of sort keys: directories first, then by the text.
pub open spec fn key_before(a: (bool, Seq<char>), b: (bool, Seq<char>)) -> bool {
    (a.0 && !b.0) || (a.0 == b.0 && lex_lt(a.1, b.1))
}

pub proof fn lemma_key_before_order(a: (bool, Seq<char>), b: (bool, Seq<char>), c: (bool, Seq<char>))
    ensures
        !(key_before(a, b) && key_before(b, a)),
        key_before(a, b) && key_before(b, c) ==> key_before(a, c),
{
    lemma_lex_lt_asymmetric(a.1, b.1);
    if key_before(a, b) && key_before(b, c) && a.0 == b.0 && b.0 == c.0 {
        lemma_lex_lt_transitive(a.1, b.1, c.1);
    }
}

/// Whether no element of `s` comes after a later one by `kf`.
pub open spec fn sorted_by_key<T>(s: Seq<T>, kf: spec_fn(T) -> (bool, Seq<char>)) -> bool {
    forall|i: int, j: int| 0 <= i < j < s.len() ==> !key_before(kf(s[j]), kf(s[i]))
}

/// `out` orders the elements of `inp` by `kf`, elements of equal key keeping their order.
pub open spec fn stable_sort_of<T>(out: Seq<T>, inp: Seq<T>, kf: spec_fn(T) -> (bool, Seq<char>)) -> bool {
    &&& sorted_by_key(out, kf)
    &&& forall|k: (bool, Seq<char>)| #[trigger] select(out, kf, k) == select(inp, kf, k)
}

/// `x` placed into `out` before the first element whose key comes after its own.
pub open spec fn insert_by<T>(out: Seq<T>, x: T, kf: spec_fn(T) -> (bool, Seq<char>)) -> Seq<T>
    decreases out.len(),
{
    if out.len() == 0 {
        seq![x]
    } else if key_before(kf(x), kf(out[0])) {
        seq![x] + out
    } else {
        seq![out[0]] + insert_by(out.drop_first(), x, kf)
    }
}

/// `s` sorted by `kf`, each element placed in turn as `insert_by` places it.
pub open spec fn isort<T>(s: Seq<T>, kf: spec_fn(T) -> (bool, Seq<char>)) -> Seq<T>
    decreases s.len(),
{
    if s.len() == 0 {
        s
    } else {
        insert_by(isort(s.drop_last(), kf), s.last(), kf)
    }
}

/// Where `insert_by` places `x`: before the first element from `j` on whose key comes
/// after its own, when none before `j` does.
pub proof fn lemma_insert_by<T>(out: Seq<T>, x: T, kf: spec_fn(T) -> (bool, Seq<char>), j: int)
    requires
        0 <= j <= out.len(),
        forall|m: int| 0 <= m < j ==> !key_before(kf(x), kf(#[trigger] out[m])),
        j < out.len() ==> key_before(kf(x), kf(out[j])),
    ensures
        insert_by(out, x, kf) == out.take(j) + seq![x] + out.skip(j),
    decreases out.len(),
{
    if out.len() == 0 {
        assert(out.take(j) + seq![x] + out.skip(j) =~= seq![x]);
    } else if j == 0 {
        assert(out.take(j) + seq![x] + out.skip(j) =~= seq![x] + out);
    } else {
        assert(!key_before(kf(x), kf(out[0])));
        let rest = out.drop_first();
        assert forall|m: int| 0 <= m < j - 1 implies !key_before(kf(x), kf(#[trigger] rest[m])) by {
            assert(rest[m] == out[m + 1]);
        }
        if j < out.len() {
            assert(rest[j - 1] == out[j]);
        }
        lemma_insert_by(rest, x, kf, j - 1);
        assert(out.take(j) + seq![x] + out.skip(j) =~= seq![out[0]] + (rest.take(j - 1) + seq![x]
            + rest.skip(j - 1)));
    }
}

/// Sorts `items` by their keys `keys` (which `kf` gives), keeping elements of equal key in
/// their order.
fn sort_with_keys<T>(
    items: Vec<T>,
    keys: Vec<(bool, Vec<char>)>,
    Ghost(kf): Ghost<spec_fn(T) -> (bool, Seq<char>)>,
) -> (r: Vec<T>)
    requires
        keys.len() == items.len(),
        forall|i: int| 0 <= i < items.len() ==> (#[trigger] keys@[i].0, keys@[i].1@) == kf(items@[i]),
    ensures
        stable_sort_of(r@, items@, kf),
        r@ == isort(items@, kf),
{
    let ghost inp = items@;
    let ghost ikeys = keys@;
    let mut items = items;
    let mut keys = keys;
    let mut out: Vec<T> = Vec::new();
    let mut out_keys: Vec<(bool, Vec<char>)> = Vec::new();
    let mut i: usize = 0;
    let n = items.len();
    assert(inp.skip(0) =~= inp);
    assert(ikeys.skip(0) =~= ikeys);
    assert forall|k: (bool, Seq<char>)| #[trigger] select(out@, kf, k) == select(inp.take(0), kf, k) by {
        assert(inp.take(0) =~= Seq::<T>::empty());
        assert(out@ =~= Seq::<T>::empty());
    }
    while i < n
        invariant
            n == inp.len(),
            i <= n,
            items@ == inp.skip(i as int),
            keys@ == ikeys.skip(i as int),
            ikeys.len() == inp.len(),
            forall|m: int| 0 <= m < inp.len() ==> (#[trigger] ikeys[m].0, ikeys[m].1@) == kf(inp[m]),
            out_keys.len() == out.len(),
            forall|m: int| 0 <= m < out.len() ==> (#[trigger] out_keys@[m].0, out_keys@[m].1@) == kf(out@[m]),
            sorted_by_key(out@, kf),
            forall|k: (bool, Seq<char>)| #[trigger] select(out@, kf, k) == select(inp.take(i as int), kf, k),
            out@ == isort(inp.take(i as int), kf),
        decreases n - i,
    {
        let x = items.remove(0);
        let kx = keys.remove(0);
        proof {
            assert(x == inp[i as int]);
            assert(items@ =~= inp.skip(i + 1));
            assert(keys@ =~= ikeys.skip(i + 1));
        }
        let ghost kxs = kf(x);
        let mut j: usize = 0;
        while j < out.len() && !((kx.0 && !out_keys[j].0) || (kx.0 == out_keys[j].0 && lex_lt_exec(&kx.1, &out_keys[j].1)))
            invariant
                j <= out.len(),
                out_keys.len() == out.len(),
                (kx.0, kx.1@) == kxs,
                forall|m: int| 0 <= m < out.len() ==> (#[trigger] out_keys@[m].0, out_keys@[m].1@) == kf(out@[m]),
                forall|m: int| 0 <= m < j ==> !key_before(kxs, kf(#[trigger] out@[m])),
            decreases out.len() - j,
        {
            j += 1;
        }
        let ghost old_out = out@;
        proof {
            if j < out.len() {
                assert(key_before(kxs, kf(old_out[j as int])));
            }
        }
        out.insert(j, x);
        out_keys.insert(j, kx);
        proof {
            assert(out@ =~= old_out.take(j as int) + seq![x] + old_out.skip(j as int));
            lemma_insert_by(old_out, x, kf, j as int);
            assert(inp.take(i + 1).drop_last() =~= inp.take(i as int));
            assert(inp.take(i + 1).last() == x);
            assert forall|a: int, b: int| 0 <= a < b < out@.len() implies !key_before(kf(out@[b]), kf(out@[a])) by {
                if a < j && b == j {
                } else if a == j && b > j {
                    let y = old_out[b - 1];
                    if b - 1 > j {
                        lemma_key_before_order(kf(y), kxs, kf(old_out[j as int]));
                        lemma_key_before_order(kf(y), kf(old_out[j as int]), kf(y));
                    } else {
                        lemma_key_before_order(kxs, kf(y), kxs);
                    }
                } else if b > j && a < j {
                    assert(out@[b] == old_out[b - 1]);
                } else if b > j && a > j {
                    assert(out@[b] == old_out[b - 1]);
                    assert(out@[a] == old_out[a - 1]);
                }
            }
            assert forall|k: (bool, Seq<char>)| #[trigger] select(out@, kf, k) == select(inp.take(i + 1), kf, k) by {
                let pre = old_out.take(j as int);
                let post = old_out.skip(j as int);
                assert(old_out =~= pre + post);
                lemma_select_append(pre, post, kf, k);
                lemma_select_append(pre + seq![x], post, kf, k);
                lemma_select_append(pre, seq![x], kf, k);
                lemma_select_single(x, kf, k);
                assert(inp.take(i + 1).drop_last() =~= inp.take(i as int));
                assert(inp.take(i + 1).last() == x);
                if k == kxs {
                    assert forall|m: int| 0 <= m < post.len() implies kf(#[trigger] post[m]) != k by {
                        let y = post[m];
                        assert(y == old_out[j + m]);
                        if m > 0 {
                            lemma_key_before_order(kxs, kf(old_out[j as int]), kf(y));
                        }
                        lemma_key_before_order(kxs, kxs, kxs);
                        if kf(y) == kxs {
                            if m > 0 {
                                assert(!key_before(kf(y), kf(old_out[j as int])));
                            }
                        }
                    }
                    lemma_select_none(post, kf, k);
                    assert(select(pre, kf, k) + select(post, kf, k) =~= select(pre, kf, k));
                    assert(select(pre, kf, k) + seq![x] =~= select(pre, kf, k).push(x));
                } else {
                    assert(select(pre, kf, k) + Seq::<T>::empty() =~= select(pre, kf, k));
                }
            }
        }
        i += 1;
    }
    proof {
        assert(inp.take(n as int) =~= inp);
    }
    out
}

/// The key by which nodes are listed: directories first, then by lower-cased name.
pub open spec fn node_key(n: StoreNode) -> (bool, Seq<char>) {
    (n.is_dir, lowercase(n.name@))
}

/// The key of a node view, as `node_key` is of a node.
pub open spec fn nv_key(n: NodeView) -> (bool, Seq<char>) {
    (n.is_dir, lowercase(n.name))
}

/// Trees as `sort_nodes` orders them.
pub open spec fn sorted_nodes(ns: Seq<NodeView>) -> Seq<NodeView> {
    isort(ns, |n: NodeView| nv_key(n))
}

proof fn lemma_view_insert(out: Seq<StoreNode>, x: StoreNode)
    ensures
        nodes_view(insert_by(out, x, |n: StoreNode| node_key(n))) == insert_by(
            nodes_view(out),
            node_view(x),
            |n: NodeView| nv_key(n),
        ),
    decreases out.len(),
{
    let kf = |n: StoreNode| node_key(n);
    let vf = |n: NodeView| nv_key(n);
    lemma_nodes_view(out);
    if out.len() == 0 {
        lemma_nodes_view_ext(seq![x], seq![node_view(x)]);
    } else if key_before(node_key(x), node_key(out[0])) {
        assert(nodes_view(out)[0] == node_view(out[0]));
        lemma_nodes_view_ext(seq![x] + out, seq![node_view(x)] + nodes_view(out));
    } else {
        assert(nodes_view(out)[0] == node_view(out[0]));
        lemma_view_insert(out.drop_first(), x);
        lemma_nodes_view_ext(out.drop_first(), nodes_view(out).drop_first());
        let ins = insert_by(out.drop_first(), x, kf);
        lemma_nodes_view(ins);
        lemma_nodes_view_ext(seq![out[0]] + ins, seq![node_view(out[0])] + nodes_view(ins));
    }
}

proof fn lemma_view_isort(s: Seq<StoreNode>)
    ensures
        nodes_view(isort(s, |n: StoreNode| node_key(n))) == sorted_nodes(nodes_view(s)),
    decreases s.len(),
{
    lemma_nodes_view(s);
    if s.len() == 0 {
        assert(nodes_view(s) =~= Seq::<NodeView>::empty());
    } else {
        lemma_view_isort(s.drop_last());
        lemma_view_insert(isort(s.drop_last(), |n: StoreNode| node_key(n)), s.last());
        lemma_nodes_view_ext(s.drop_last(), nodes_view(s).drop_last());
        assert(nodes_view(s).last() == node_view(s.last()));
    }
}

/// Directories first, then alphabetical (case-insensitive); nodes of equal key keep
/// their order.
pub fn sort_nodes(nodes: &mut Vec<StoreNode>)
    ensures
        stable_sort_of(final(nodes)@, old(nodes)@, |n: StoreNode| node_key(n)),
        nodes_view(final(nodes)@) == sorted_nodes(nodes_view(old(nodes)@)),
{
    let mut items: Vec<StoreNode> = Vec::new();
    std::mem::swap(&mut items, nodes);
    let mut keys: Vec<(bool, Vec<char>)> = Vec::new();
    let mut i: usize = 0;
    while i < items.len()
        invariant
            i <= items.len(),
            keys.len() == i,
            forall|m: int| 0 <= m < i ==> (#[trigger] keys@[m].0, keys@[m].1@) == node_key(items@[m]),
        decreases items.len() - i,
    {
        let lowered = to_chars(to_lowercase(items[i].name.as_str()).as_str());
        keys.push((items[i].is_dir, lowered));
        i += 1;
    }
    let ghost before = items@;
    let sorted = sort_with_keys(items, keys, Ghost(|n: StoreNode| node_key(n)));
    proof {
        lemma_view_isort(before);
    }
    *nodes = sorted;
}

// ---------------------------------------------------------------------
// Reading the store
// ---------------------------------------------------------------------
/// A file or directory of the store as the file system lists it, in the order of the
/// listing (by file name); a directory holds its own listing.
pub struct DirEntry {
    pub name: String,
    pub is_dir: bool,
    pub children: Vec<DirEntry>,
}

pub struct DirView {
    pub name: Seq<char>,
    pub is_dir: bool,
    pub children: Seq<DirView>,
}

pub open spec fn dir_view(e: DirEntry) -> DirView
    decreases e,
{
    DirView { name: e.name@, is_dir: e.is_dir, children: dirs_view(e.children@) }
}

pub open spec fn dirs_view(es: Seq<DirEntry>) -> Seq<DirView>
    decreases es,
{
    if es.len() == 0 {
        seq![]
    } else {
        seq![dir_view(es[0])] + dirs_view(es.subrange(1, es.len() as int))
    }
}

pub proof fn lemma_dirs_view(es: Seq<DirEntry>)
    ensures
        dirs_view(es).len() == es.len(),
        forall|i: int| 0 <= i < es.len() ==> #[trigger] dirs_view(es)[i] == dir_view(es[i]),
    decreases es.len(),
{
    if es.len() > 0 {
        let rest = es.subrange(1, es.len() as int);
        lemma_dirs_view(rest);
        assert forall|i: int| 0 <= i < es.len() implies #[trigger] dirs_view(es)[i] == dir_view(
            es[i],
        ) by {
            if i > 0 {
                assert(dirs_view(es)[i] == dirs_view(rest)[i - 1]);
                assert(rest[i - 1] == es[i]);
            }
        }
    }
}

/// The store path of `name` in the directory whose store path is `prefix`.
pub open spec fn child_path(prefix: Seq<char>, name: Seq<char>) -> Seq<char> {
    if prefix.len() == 0 {
        name
    } else {
        prefix + "/"@ + name
    }
}

/// The sorted trees that the listing `es` of the directory `prefix` shows.
pub open spec fn scanned(prefix: Seq<char>, es: Seq<DirView>) -> Seq<NodeView>
    decreases es, 1int,
{
    sorted_nodes(built(prefix, es))
}

/// The trees that the listing `es` shows, in listing order: hidden names are skipped,
/// a directory shows when something in it does, and a file shows when it is encrypted
/// (`.gpg`), under its name without that extension.
pub open spec fn built(prefix: Seq<char>, es: Seq<DirView>) -> Seq<NodeView>
    decreases es, 0int,
{
    if es.len() == 0 {
        seq![]
    } else {
        let e = es[0];
        let rest = built(prefix, es.subrange(1, es.len() as int));
        let path = child_path(prefix, e.name);
        if starts_with(e.name, "."@) {
            rest
        } else if e.is_dir {
            let cs = scanned(path, e.children);
            if cs.len() > 0 {
                seq![NodeView { name: e.name, path, is_dir: true, children: cs, expanded: true }]
                    + rest
            } else {
                rest
            }
        } else if ends_with(e.name, ".gpg"@) {
            seq![
                NodeView {
                    name: e.name.take(e.name.len() - 4),
                    path: path.take(path.len() - 4),
                    is_dir: false,
                    children: seq![],
                    expanded: false,
                },
            ] + rest
        } else {
            rest
        }
    }
}

fn scan_level(prefix: &Vec<char>, entries: &Vec<DirEntry>) -> (r: Vec<StoreNode>)
    ensures
        nodes_view(r@) == scanned(prefix@, dirs_view(entries@)),
    decreases entries@,
{
    let ghost es = dirs_view(entries@);
    proof {
        lemma_dirs_view(entries@);
    }
    let dot = to_chars(".");
    let ext = to_chars(".gpg");
    let mut out: Vec<StoreNode> = Vec::new();
    let mut i: usize = 0;
    assert(es.subrange(0, es.len() as int) =~= es);
    while i < entries.len()
        invariant
            i <= entries.len(),
            es == dirs_view(entries@),
            es.len() == entries.len(),
            forall|m: int| 0 <= m < entries.len() ==> #[trigger] es[m] == dir_view(entries@[m]),
            dot@ == "."@,
            ext@ == ".gpg"@,
            nodes_view(out@) + built(prefix@, es.subrange(i as int, es.len() as int)) == built(
                prefix@,
                es,
            ),
        decreases entries.len() - i,
    {
        let ghost sub = es.subrange(i as int, es.len() as int);
        assert(sub[0] == es[i as int]);
        assert(sub.subrange(1, sub.len() as int) =~= es.subrange(i + 1, es.len() as int));
        let e = &entries[i];
        let name = to_chars(e.name.as_str());
        let mut path = copy(prefix);
        if prefix.len() > 0 {
            path.push('/');
        }
        append(&mut path, &name);
        proof {
            reveal_strlit("/");
            if prefix@.len() > 0 {
                assert(path@ =~= prefix@ + "/"@ + name@);
            } else {
                assert(path@ =~= name@);
            }
        }
        let ghost out0 = out@;
        let ghost before = nodes_view(out@);
        let ghost rest = built(prefix@, es.subrange(i + 1, es.len() as int));
        proof {
            lemma_nodes_view(out0);
            reveal_strlit(".gpg");
            assert(es[i as int].name == name@);
            assert(es[i as int].is_dir == e.is_dir);
            assert(es[i as int].children == dirs_view(e.children@));
        }
        if starts_with_exec(&name, &dot) {
            assert(built(prefix@, sub) == rest);
        } else if e.is_dir {
            proof {
                assert(decreases_to!(entries@ => entries@[i as int]));
                assert(decreases_to!(entries@[i as int] => entries@[i as int].children));
                assert(decreases_to!(entries@[i as int].children => entries@[i as int].children@));
            }
            let children = scan_level(&path, &e.children);
            if children.len() > 0 {
                proof {
                    lemma_nodes_view(children@);
                }
                let node = StoreNode {
                    name: e.name.clone(),
                    path: string_of(&path),
                    is_dir: true,
                    children,
                    expanded: true,
                };
                out.push(node);
                proof {
                    let nv = node_view(node);
                    assert(nv == NodeView {
                        name: es[i as int].name,
                        path: child_path(prefix@, es[i as int].name),
                        is_dir: true,
                        children: scanned(child_path(prefix@, es[i as int].name), es[i as int].children),
                        expanded: true,
                    });
                    lemma_nodes_view_ext(out@, before.push(nv));
                    assert(built(prefix@, sub) == seq![nv] + rest);
                    assert(before.push(nv) + rest =~= before + (seq![nv] + rest));
                }
            } else {
                proof {
                    lemma_nodes_view(children@);
                    assert(built(prefix@, sub) == rest);
                }
            }
        } else if ends_with_exec(&name, &ext) {
            let node = StoreNode {
                name: string_of_range(&name, 0, name.len() - 4),
                path: string_of_range(&path, 0, path.len() - 4),
                is_dir: false,
                children: Vec::new(),
                expanded: false,
            };
            out.push(node);
            proof {
                let nv = node_view(node);
                lemma_nodes_view(node.children@);
                assert(nodes_view(node.children@) =~= Seq::<NodeView>::empty());
                assert(name@.subrange(0, name@.len() - 4) =~= name@.take(name@.len() - 4));
                assert(path@.subrange(0, path@.len() - 4) =~= path@.take(path@.len() - 4));
                lemma_nodes_view_ext(out@, before.push(nv));
                assert(built(prefix@, sub) == seq![nv] + rest);
                assert(before.push(nv) + rest =~= before + (seq![nv] + rest));
            }
        } else {
            assert(built(prefix@, sub) == rest);
        }
        i += 1;
    }
    let ghost b = nodes_view(out@);
    proof {
        assert(es.subrange(i as int, es.len() as int) =~= Seq::<DirView>::empty());
        assert(b + Seq::<NodeView>::empty() =~= b);
    }
    sort_nodes(&mut out);
    out
}

/// The sorted trees of the store whose top directory lists `listing`.
pub fn scan_store(listing: &Vec<DirEntry>) -> (r: Vec<StoreNode>)
    ensures
        nodes_view(r@) == scanned(seq![], dirs_view(listing@)),
{
    let top: Vec<char> = Vec::new();
    scan_level(&top, listing)
}


/// Every folder of the trees `ns`, at every depth, is expanded.
pub open spec fn all_expanded(ns: Seq<NodeView>) -> bool
    decreases ns,
{
    if ns.len() == 0 {
        true
    } else {
        &&& (ns[0].is_dir ==> ns[0].expanded)
        &&& all_expanded(ns[0].children)
        &&& all_expanded(ns.subrange(1, ns.len() as int))
    }
}

/// With every folder expanded, listing the whole tree (as search does) lists exactly
/// what the browsing view lists.
pub proof fn lemma_flat_all_when_expanded(ns: Seq<NodeView>, depth: nat)
    requires
        all_expanded(ns),
    ensures
        flat(ns, depth, true) == flat(ns, depth, false),
    decreases ns,
{
    if ns.len() > 0 {
        lemma_flat_all_when_expanded(ns[0].children, depth + 1);
        lemma_flat_all_when_expanded(ns.subrange(1, ns.len() as int), depth);
    }
}

/// How `sort_nodes` orders a tree's level: folders before entries, and among nodes of
/// the same kind by name lower-cased, so the letter case of names plays no part; nodes
/// whose lower-cased names are equal keep their order.
pub proof fn lemma_sort_nodes_order(out: Seq<StoreNode>, inp: Seq<StoreNode>)
    requires
        stable_sort_of(out, inp, |n: StoreNode| node_key(n)),
    ensures
        forall|i: int, j: int| 0 <= i < j < out.len() ==> (#[trigger] out[i]).is_dir || !(#[trigger] out[j]).is_dir,
        forall|i: int, j: int|
            0 <= i < j < out.len() && (#[trigger] out[i]).is_dir == (#[trigger] out[j]).is_dir ==> !lex_lt(
                lowercase(out[j].name@),
                lowercase(out[i].name@),
            ),
        forall|a: StoreNode, b: StoreNode|
            a.is_dir == b.is_dir && lowercase(a.name@) == lowercase(b.name@) ==> #[trigger] node_key(a)
                == #[trigger] node_key(b),
{
    assert forall|i: int, j: int| 0 <= i < j < out.len() implies (#[trigger] out[i]).is_dir || !(
    #[trigger] out[j]).is_dir by {
        assert(!key_before(node_key(out[j]), node_key(out[i])));
    }
    assert forall|i: int, j: int|
        0 <= i < j < out.len() && (#[trigger] out[i]).is_dir == (#[trigger] out[j]).is_dir implies !lex_lt(
        lowercase(out[j].name@),
        lowercase(out[i].name@),
    ) by {
        assert(!key_before(node_key(out[j]), node_key(out[i])));
    }
}

} // verus!
