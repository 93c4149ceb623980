//! The repository file tree shown in standard (non-GGUF) mode: building it
//! from the flat listing, ordering, directory sizes, expansion and the
//! flattened rows that the list displays.

use crate::laws::{file_node_at, law_built_tree_files_are_listed, parts_of, holds_file, law_built_tree_holds_every_file, law_built_tree_well_shaped, listing_is_tree, well_shaped};
use crate::models::{FileTreeNode, RepoFile};
use crate::text::{split_chars, split_on, str_to_lowercase, unicode_lower};
use vstd::prelude::*;

verus! {

/// Number of files in the subtree of `n` (a file counts itself).
pub open spec fn files_in(n: FileTreeNode) -> nat
    decreases n,
{
    if n.is_dir {
        files_in_all(n.children@)
    } else {
        1
    }
}

/// Number of files in the subtrees of `s`.
pub open spec fn files_in_all(s: Seq<FileTreeNode>) -> nat
    decreases s,
{
    if s.len() == 0 {
        0
    } else {
        files_in_all(s.drop_last()) + files_in(s.last())
    }
}

/// The number of files within a node, when it fits in a `usize`.
pub fn count_files_checked(node: &FileTreeNode) -> (r: Option<usize>)
    ensures
        match r {
            Some(c) => c == files_in(*node),
            None => files_in(*node) > usize::MAX,
        },
    decreases node,
{
    if node.is_dir {
        let mut total: usize = 0;
        let mut i: usize = 0;
        while i < node.children.len()
            invariant
                i <= node.children@.len(),
                node.is_dir,
                total == files_in_all(node.children@.take(i as int)),
            decreases node.children.len() - i,
        {
            proof {
                assert(node.children@.take(i + 1).drop_last() =~= node.children@.take(i as int));
                assert(node.children@.take(i + 1).last() == node.children@[i as int]);
                lemma_files_prefix(node.children@, i as int + 1);
            }
            let c = match count_files_checked(&node.children[i]) {
                Some(c) => c,
                None => return None,
            };
            if c > usize::MAX - total {
                return None;
            }
            total = total + c;
            i += 1;
        }
        assert(node.children@.take(node.children@.len() as int) =~= node.children@);
        Some(total)
    } else {
        Some(1)
    }
}

/// Counts the files within a node, recursively.
pub fn count_files(node: &FileTreeNode) -> (r: usize)
    requires
        files_in(*node) <= usize::MAX,
    ensures
        r == files_in(*node),
    decreases node,
{
    if node.is_dir {
        let mut total: usize = 0;
        let mut i: usize = 0;
        while i < node.children.len()
            invariant
                i <= node.children@.len(),
                node.is_dir,
                files_in(*node) <= usize::MAX,
                total == files_in_all(node.children@.take(i as int)),
            decreases node.children.len() - i,
        {
            proof {
                assert(node.children@.take(i + 1).drop_last() =~= node.children@.take(i as int));
                assert(node.children@.take(i + 1).last() == node.children@[i as int]);
                lemma_files_prefix(node.children@, i as int + 1);
            }
            let c = count_files(&node.children[i]);
            total = total + c;
            i += 1;
        }
        assert(node.children@.take(node.children@.len() as int) =~= node.children@);
        total
    } else {
        1
    }
}

proof fn lemma_files_prefix(s: Seq<FileTreeNode>, k: int)
    requires
        0 <= k <= s.len(),
    ensures
        files_in_all(s.take(k)) <= files_in_all(s),
    decreases s.len() - k,
{
    if k < s.len() {
        lemma_files_prefix(s, k + 1);
        assert(s.take(k + 1).drop_last() =~= s.take(k));
    } else {
        assert(s.take(k) =~= s);
    }
}

// ---------------------------------------------------------------------------
// Directory sizes
// ---------------------------------------------------------------------------

/// Total size of the files in the subtree of `n` (unknown sizes count 0).
pub open spec fn tree_total(n: FileTreeNode) -> nat
    decreases n,
{
    if n.is_dir {
        tree_total_all(n.children@)
    } else {
        match n.size {
            Some(s) => s as nat,
            None => 0,
        }
    }
}

pub open spec fn tree_total_all(s: Seq<FileTreeNode>) -> nat
    decreases s,
{
    if s.len() == 0 {
        0
    } else {
        tree_total_all(s.drop_last()) + tree_total(s.last())
    }
}

/// Same node apart from sizes and children.
pub open spec fn same_label(o: FileTreeNode, n: FileTreeNode) -> bool {
    &&& n.name == o.name
    &&& n.path == o.path
    &&& n.is_dir == o.is_dir
    &&& n.expanded == o.expanded
    &&& n.depth == o.depth
}

/// `n` is `o` with every directory's size set to the total of its files
/// (a file node, and whatever hangs below it, is left as it is).
pub open spec fn sizes_filled(o: FileTreeNode, n: FileTreeNode) -> bool
    decreases o,
{
    if o.is_dir {
        &&& same_label(o, n)
        &&& n.size == Some(tree_total(o) as u64)
        &&& sizes_filled_all(o.children@, n.children@)
    } else {
        n == o
    }
}

/// Pairwise [`sizes_filled`] over two lists of nodes of equal length.
pub open spec fn sizes_filled_all(os: Seq<FileTreeNode>, ns: Seq<FileTreeNode>) -> bool
    decreases os,
{
    if os.len() == 0 {
        ns.len() == 0
    } else {
        &&& ns.len() == os.len()
        &&& sizes_filled_all(os.drop_last(), ns.drop_last())
        &&& sizes_filled(os.last(), ns.last())
    }
}

proof fn lemma_sizes_filled_all(os: Seq<FileTreeNode>, ns: Seq<FileTreeNode>)
    requires
        os.len() == ns.len(),
        forall|i: int| 0 <= i < os.len() ==> #[trigger] sizes_filled(os[i], ns[i]),
    ensures
        sizes_filled_all(os, ns),
    decreases os.len(),
{
    if os.len() > 0 {
        let a = os.drop_last();
        let b = ns.drop_last();
        assert forall|i: int| 0 <= i < a.len() implies #[trigger] sizes_filled(a[i], b[i]) by {
            assert(a[i] == os[i] && b[i] == ns[i]);
            assert(sizes_filled(os[i], ns[i]));
        }
        lemma_sizes_filled_all(a, b);
        assert(sizes_filled(os[os.len() - 1], ns[ns.len() - 1]));
    }
}

proof fn lemma_total_prefix(s: Seq<FileTreeNode>, k: int)
    requires
        0 <= k <= s.len(),
    ensures
        tree_total_all(s.take(k)) <= tree_total_all(s),
    decreases s.len() - k,
{
    if k < s.len() {
        lemma_total_prefix(s, k + 1);
        assert(s.take(k + 1).drop_last() =~= s.take(k));
    } else {
        assert(s.take(k) =~= s);
    }
}

/// Sets every directory's size to the total size of the files within it,
/// recursively, and returns the node's total.
pub fn calculate_directory_sizes(node: &mut FileTreeNode) -> (r: u64)
    requires
        tree_total(*old(node)) <= u64::MAX,
    ensures
        r == tree_total(*old(node)),
        sizes_filled(*old(node), *final(node)),
    decreases *old(node),
{
    if node.is_dir {
        let ghost oc = node.children@;
        let mut total: u64 = 0;
        let mut i: usize = 0;
        while i < node.children.len()
            invariant
                i <= node.children@.len(),
                node.children@.len() == oc.len(),
                node.is_dir == old(node).is_dir,
                node.is_dir,
                oc == old(node).children@,
                same_label(*old(node), *node),
                tree_total(*old(node)) <= u64::MAX,
                total == tree_total_all(oc.take(i as int)),
                forall|j: int| 0 <= j < i ==> #[trigger] sizes_filled(oc[j], node.children@[j]),
                forall|j: int| i <= j < oc.len() ==> #[trigger] node.children@[j] == oc[j],
            decreases node.children.len() - i,
        {
            proof {
                assert(oc.take(i + 1).drop_last() =~= oc.take(i as int));
                assert(oc.take(i + 1).last() == oc[i as int]);
                lemma_total_prefix(oc, i as int + 1);
            }
            let c = calculate_directory_sizes(&mut node.children[i]);
            total = total + c;
            i += 1;
        }
        assert(oc.take(oc.len() as int) =~= oc);
        node.size = Some(total);
        proof {
            lemma_sizes_filled_all(oc, node.children@);
        }
        total
    } else {
        match node.size {
            Some(s) => s,
            None => 0,
        }
    }
}


// ---------------------------------------------------------------------------
// Views
// ---------------------------------------------------------------------------

/// A tree node as plain values.
pub struct NodeView {
    pub name: Seq<char>,
    pub path: Seq<char>,
    pub is_dir: bool,
    pub size: Option<u64>,
    pub children: Seq<NodeView>,
    pub expanded: bool,
    pub depth: usize,
}

pub open spec fn tview(n: FileTreeNode) -> NodeView
    decreases n,
{
    NodeView {
        name: n.name@,
        path: n.path@,
        is_dir: n.is_dir,
        size: n.size,
        children: views_of(n.children@),
        expanded: n.expanded,
        depth: n.depth,
    }
}

pub open spec fn views_of(s: Seq<FileTreeNode>) -> Seq<NodeView>
    decreases s,
{
    if s.len() == 0 {
        Seq::<NodeView>::empty()
    } else {
        views_of(s.drop_last()).push(tview(s.last()))
    }
}

pub proof fn lemma_views_index(s: Seq<FileTreeNode>)
    ensures
        views_of(s).len() == s.len(),
        forall|i: int| 0 <= i < s.len() ==> #[trigger] views_of(s)[i] == tview(s[i]),
    decreases s.len(),
{
    if s.len() > 0 {
        lemma_views_index(s.drop_last());
        assert forall|i: int| 0 <= i < s.len() implies #[trigger] views_of(s)[i] == tview(s[i]) by {
            if i < s.len() - 1 {
                assert(s.drop_last()[i] == s[i]);
            }
        }
    }
}

pub proof fn lemma_views_ext(a: Seq<FileTreeNode>, b: Seq<NodeView>)
    requires
        a.len() == b.len(),
        forall|i: int| 0 <= i < a.len() ==> #[trigger] tview(a[i]) == b[i],
    ensures
        views_of(a) == b,
{
    lemma_views_index(a);
    assert(views_of(a) =~= b);
}

/// A copy of the whole subtree.
pub fn deep_clone(n: &FileTreeNode) -> (r: FileTreeNode)
    ensures
        tview(r) == tview(*n),
    decreases n,
{
    let mut children: Vec<FileTreeNode> = Vec::new();
    let mut i: usize = 0;
    while i < n.children.len()
        invariant
            i <= n.children@.len(),
            children@.len() == i,
            forall|j: int| 0 <= j < i ==> #[trigger] tview(children@[j]) == tview(n.children@[j]),
        decreases n.children.len() - i,
    {
        let c = deep_clone(&n.children[i]);
        children.push(c);
        i += 1;
    }
    proof {
        lemma_views_index(n.children@);
        lemma_views_ext(children@, views_of(n.children@));
    }
    FileTreeNode {
        name: n.name.clone(),
        path: n.path.clone(),
        is_dir: n.is_dir,
        size: n.size,
        children,
        expanded: n.expanded,
        depth: n.depth,
    }
}

// ---------------------------------------------------------------------------
// Flattening for display
// ---------------------------------------------------------------------------

/// Rows shown for the subtree of `v`: its children in order, each followed
/// by its own rows when it is an expanded directory.
pub open spec fn flat(v: NodeView) -> Seq<NodeView>
    decreases v,
{
    flat_seq(v.children)
}

pub open spec fn flat_seq(s: Seq<NodeView>) -> Seq<NodeView>
    decreases s,
{
    if s.len() == 0 {
        Seq::<NodeView>::empty()
    } else {
        let c = s.last();
        flat_seq(s.drop_last()) + seq![c] + (if c.is_dir && c.expanded { flat(c) } else { Seq::<NodeView>::empty() })
    }
}

/// Appends the rows of the subtree of `node` (see [`flat`]).
pub fn flatten_tree_recursive(node: &FileTreeNode, result: &mut Vec<FileTreeNode>)
    ensures
        views_of(final(result)@) == views_of(old(result)@) + flat(tview(*node)),
    decreases node,
{
    let ghost cv = views_of(node.children@);
    proof {
        lemma_views_index(node.children@);
    }
    let mut i: usize = 0;
    while i < node.children.len()
        invariant
            i <= node.children@.len(),
            cv == views_of(node.children@),
            cv.len() == node.children@.len(),
            forall|j: int| 0 <= j < node.children@.len() ==> #[trigger] cv[j] == tview(node.children@[j]),
            views_of(result@) == views_of(old(result)@) + flat_seq(cv.take(i as int)),
        decreases node.children.len() - i,
    {
        proof {
            assert(cv.take(i + 1).drop_last() =~= cv.take(i as int));
            assert(cv.take(i + 1).last() == cv[i as int]);
        }
        let child = &node.children[i];
        let ghost before = result@;
        let c = deep_clone(child);
        result.push(c);
        assert(result@.drop_last() =~= before);
        if child.is_dir && child.expanded {
            flatten_tree_recursive(child, result);
        }
        proof {
            assert(views_of(result@) =~= views_of(old(result)@) + flat_seq(cv.take(i + 1)));
        }
        i += 1;
    }
    assert(cv.take(cv.len() as int) =~= cv);
}

/// The rows shown for a tree (see [`flat`]).
pub fn flatten_tree(node: &FileTreeNode) -> (r: Vec<FileTreeNode>)
    ensures
        views_of(r@) == flat(tview(*node)),
{
    let mut result: Vec<FileTreeNode> = Vec::new();
    flatten_tree_recursive(node, &mut result);
    assert(views_of(result@) =~= flat(tview(*node)));
    result
}

/// The rows shown for a tree, for keyboard navigation.
pub fn flatten_tree_for_navigation(node: &FileTreeNode) -> (r: Vec<FileTreeNode>)
    ensures
        views_of(r@) == flat(tview(*node)),
{
    flatten_tree(node)
}

// ---------------------------------------------------------------------------
// Expansion
// ---------------------------------------------------------------------------

/// `c` with its expansion flipped when it is a directory.
pub open spec fn flipped(c: NodeView) -> NodeView {
    NodeView {
        name: c.name,
        path: c.path,
        is_dir: c.is_dir,
        size: c.size,
        children: c.children,
        expanded: if c.is_dir { !c.expanded } else { c.expanded },
        depth: c.depth,
    }
}

/// Toggles the first node below `v` (depth-first, children in order,
/// descending into directories only) whose path is `t`; the flag says
/// whether one was found.
pub open spec fn toggle_node(v: NodeView, t: Seq<char>) -> (NodeView, bool)
    decreases v,
{
    let r = toggle_seq(v.children, t);
    (
        NodeView {
            name: v.name,
            path: v.path,
            is_dir: v.is_dir,
            size: v.size,
            children: r.0,
            expanded: v.expanded,
            depth: v.depth,
        },
        r.1,
    )
}

pub open spec fn toggle_seq(s: Seq<NodeView>, t: Seq<char>) -> (Seq<NodeView>, bool)
    decreases s,
{
    if s.len() == 0 {
        (s, false)
    } else {
        let c = s[0];
        if c.path == t {
            (s.update(0, flipped(c)), true)
        } else if c.is_dir && toggle_node(c, t).1 {
            (s.update(0, toggle_node(c, t).0), true)
        } else {
            let r = toggle_seq(s.drop_first(), t);
            (seq![c] + r.0, r.1)
        }
    }
}

proof fn lemma_toggle_node_unchanged(v: NodeView, t: Seq<char>)
    ensures
        !toggle_node(v, t).1 ==> toggle_node(v, t).0 == v,
    decreases v,
{
    lemma_toggle_seq_unchanged(v.children, t);
}

proof fn lemma_toggle_seq_unchanged(s: Seq<NodeView>, t: Seq<char>)
    ensures
        !toggle_seq(s, t).1 ==> toggle_seq(s, t).0 == s,
    decreases s,
{
    if s.len() > 0 {
        lemma_toggle_node_unchanged(s[0], t);
        lemma_toggle_seq_unchanged(s.drop_first(), t);
        if !toggle_seq(s, t).1 {
            assert(seq![s[0]] + s.drop_first() =~= s);
        }
    }
}

proof fn lemma_views_update(s: Seq<FileTreeNode>, i: int, x: FileTreeNode)
    requires
        0 <= i < s.len(),
    ensures
        views_of(s.update(i, x)) == views_of(s).update(i, tview(x)),
{
    lemma_views_index(s);
    lemma_views_index(s.update(i, x));
    assert(views_of(s.update(i, x)) =~= views_of(s).update(i, tview(x)));
}

/// Toggles the expansion of the first directory below `node` whose path is
/// `target_path` (see [`toggle_node`]); returns whether a node with that
/// path was found.
pub fn toggle_node_expansion(node: &mut FileTreeNode, target_path: &str) -> (r: bool)
    ensures
        (tview(*final(node)), r) == toggle_node(tview(*old(node)), target_path@),
    decreases *old(node),
{
    let ghost cv = views_of(node.children@);
    let ghost t = target_path@;
    proof {
        lemma_views_index(node.children@);
        assert(cv.skip(0) =~= cv);
        assert(cv.take(0) + cv =~= cv);
    }
    let mut i: usize = 0;
    while i < node.children.len()
        invariant
            i <= node.children@.len(),
            t == target_path@,
            cv == views_of(old(node).children@),
            views_of(node.children@) == cv,
            node.children@.len() == old(node).children@.len(),
            forall|j: int| i <= j < node.children@.len() ==> #[trigger] node.children@[j] == old(node).children@[j],
            cv.len() == node.children@.len(),
            node.name == old(node).name,
            node.path == old(node).path,
            node.is_dir == old(node).is_dir,
            node.size == old(node).size,
            node.expanded == old(node).expanded,
            node.depth == old(node).depth,
            toggle_seq(cv, t) == (cv.take(i as int) + toggle_seq(cv.skip(i as int), t).0, toggle_seq(cv.skip(i as int), t).1),
        decreases node.children.len() - i,
    {
        proof {
            lemma_views_index(node.children@);
            assert(cv.skip(i as int)[0] == cv[i as int]);
        }
        if crate::text::str_eq(node.children[i].path.as_str(), target_path) {
            let ghost before = node.children@;
            let child = &mut node.children[i];
            if child.is_dir {
                child.expanded = !child.expanded;
            }
            proof {
                assert(tview(node.children@[i as int]) =~= flipped(cv[i as int]));
                lemma_views_update(before, i as int, node.children@[i as int]);
                assert(node.children@ == before.update(i as int, node.children@[i as int]));
                assert(cv.take(i as int) + cv.skip(i as int).update(0, flipped(cv[i as int])) =~= cv.update(
                    i as int,
                    flipped(cv[i as int]),
                ));
            }
            return true;
        }
        if node.children[i].is_dir {
            let ghost before = node.children@;
            let found = toggle_node_expansion(&mut node.children[i], target_path);
            proof {
                lemma_views_update(before, i as int, node.children@[i as int]);
                assert(node.children@ == before.update(i as int, node.children@[i as int]));
                lemma_toggle_node_unchanged(cv[i as int], t);
            }
            if found {
                proof {
                    assert(cv.take(i as int) + cv.skip(i as int).update(0, toggle_node(cv[i as int], t).0)
                        =~= cv.update(i as int, toggle_node(cv[i as int], t).0));
                }
                return true;
            }
        }
        proof {
            assert(cv.skip(i as int).drop_first() =~= cv.skip(i + 1));
            assert(cv.take(i as int) + seq![cv[i as int]] =~= cv.take(i + 1));
            assert((cv.take(i as int) + seq![cv[i as int]]) + toggle_seq(cv.skip(i + 1), t).0 =~= cv.take(i as int)
                + (seq![cv[i as int]] + toggle_seq(cv.skip(i + 1), t).0));
        }
        i += 1;
    }
    proof {
        assert(cv.skip(i as int) =~= Seq::<NodeView>::empty());
        assert(cv.take(i as int) + Seq::<NodeView>::empty() =~= cv);
    }
    false
}

// ---------------------------------------------------------------------------
// Insertion
// ---------------------------------------------------------------------------

/// Index of the first node of `s` from `from` on named `p`, or -1.
pub open spec fn child_named(s: Seq<NodeView>, p: Seq<char>, from: int) -> int
    decreases s.len() - from,
{
    if from < 0 || from >= s.len() {
        -1
    } else if s[from].name == p {
        from
    } else {
        child_named(s, p, from + 1)
    }
}

/// Path of the child `p` of a node with path `parent`.
pub open spec fn child_path(parent: Seq<char>, p: Seq<char>) -> Seq<char> {
    if parent.len() == 0 {
        p
    } else {
        parent + seq!['/'] + p
    }
}

/// A new node `p` below `v`: a file with `size` when it is the last part,
/// else a collapsed directory.
pub open spec fn new_child(v: NodeView, p: Seq<char>, last: bool, depth: nat, size: Option<u64>) -> NodeView {
    NodeView {
        name: p,
        path: child_path(v.path, p),
        is_dir: !last,
        size: if last { size } else { None },
        children: Seq::<NodeView>::empty(),
        expanded: false,
        depth: (depth + 1) as usize,
    }
}

/// `v` with the path `parts` inserted: the first child named like the
/// first part is reused (else a new one is appended) and the rest of the
/// parts go below it.
pub open spec fn inserted(v: NodeView, parts: Seq<Seq<char>>, depth: nat, size: Option<u64>) -> NodeView
    decreases parts.len(),
{
    if parts.len() == 0 {
        v
    } else {
        let p = parts[0];
        let last = parts.len() == 1;
        let pos = child_named(v.children, p, 0);
        let c = if pos >= 0 { v.children[pos] } else { new_child(v, p, last, depth, size) };
        let c2 = if last { c } else { inserted(c, parts.drop_first(), depth + 1, size) };
        NodeView {
            name: v.name,
            path: v.path,
            is_dir: v.is_dir,
            size: v.size,
            children: if pos >= 0 { v.children.update(pos, c2) } else { v.children.push(c2) },
            expanded: v.expanded,
            depth: v.depth,
        }
    }
}

pub open spec fn strs_view(s: Seq<String>) -> Seq<Seq<char>> {
    s.map_values(|x: String| x@)
}

fn find_child(node: &FileTreeNode, name: &String) -> (r: Option<usize>)
    ensures
        match r {
            Some(i) => i as int == child_named(views_of(node.children@), name@, 0) && i < node.children@.len(),
            None => child_named(views_of(node.children@), name@, 0) == -1,
        },
{
    let ghost cv = views_of(node.children@);
    proof {
        lemma_views_index(node.children@);
    }
    let mut i: usize = 0;
    while i < node.children.len()
        invariant
            i <= node.children@.len(),
            cv == views_of(node.children@),
            cv.len() == node.children@.len(),
            forall|j: int| 0 <= j < node.children@.len() ==> #[trigger] cv[j] == tview(node.children@[j]),
            child_named(cv, name@, i as int) == child_named(cv, name@, 0),
        decreases node.children.len() - i,
    {
        if node.children[i].name == *name {
            assert(cv[i as int].name == name@);
            return Some(i);
        }
        i += 1;
    }
    None
}

fn insert_parts(node: &mut FileTreeNode, parts: &Vec<String>, k: usize, depth: usize, size: Option<u64>)
    requires
        k <= parts@.len(),
        depth + (parts@.len() - k) <= usize::MAX,
    ensures
        tview(*final(node)) == inserted(tview(*old(node)), strs_view(parts@).skip(k as int), depth as nat, size),
    decreases parts@.len() - k,
{
    let ghost pv = strs_view(parts@).skip(k as int);
    if k == parts.len() {
        assert(pv.len() == 0);
        return;
    }
    let ghost v = tview(*node);
    let p = &parts[k];
    let last = k + 1 == parts.len();
    assert(pv[0] == p@);
    assert(pv.drop_first() =~= strs_view(parts@).skip(k + 1));
    let ghost before = node.children@;
    proof {
        lemma_views_index(node.children@);
    }
    match find_child(node, p) {
        Some(pos) => {
            if !last {
                insert_parts(&mut node.children[pos], parts, k + 1, depth + 1, size);
                proof {
                    lemma_views_update(before, pos as int, node.children@[pos as int]);
                    assert(node.children@ == before.update(pos as int, node.children@[pos as int]));
                }
            } else {
                proof {
                    assert(views_of(before).update(pos as int, views_of(before)[pos as int]) =~= views_of(before));
                }
            }
            assert(tview(*node) =~= inserted(v, pv, depth as nat, size));
        },
        None => {
            let path = if node.path.as_str().is_empty() {
                p.clone()
            } else {
                let mut q = node.path.clone();
                q.append("/");
                q.append(p.as_str());
                proof {
                    reveal_strlit("/");
                }
                q
            };
            let child = FileTreeNode {
                name: p.clone(),
                path,
                is_dir: !last,
                size: if last { size } else { None },
                children: Vec::new(),
                expanded: false,
                depth: depth + 1,
            };
            assert(views_of(child.children@) =~= Seq::<NodeView>::empty());
            assert(child.path@ =~= child_path(v.path, pv[0]));
            assert(tview(child) =~= new_child(v, pv[0], last, depth as nat, size));
            node.children.push(child);
            let ghost pushed = node.children@;
            assert(pushed.drop_last() =~= before);
            if !last {
                let n = node.children.len() - 1;
                insert_parts(&mut node.children[n], parts, k + 1, depth + 1, size);
                proof {
                    lemma_views_update(pushed, n as int, node.children@[n as int]);
                    assert(node.children@ == pushed.update(n as int, node.children@[n as int]));
                    assert(pushed.update(n as int, node.children@[n as int]).drop_last() =~= before);
                }
            }
            assert(tview(*node) =~= inserted(v, pv, depth as nat, size));
        },
    }
}

/// Inserts the path `parts` (the `/`-separated parts of `file`'s name)
/// below `node` at `depth` (see [`inserted`]); the last part becomes a file
/// node with the file's size.
pub fn insert_into_tree(node: &mut FileTreeNode, parts: &Vec<String>, depth: usize, file: &RepoFile)
    requires
        depth + parts@.len() <= usize::MAX,
    ensures
        tview(*final(node)) == inserted(tview(*old(node)), strs_view(parts@), depth as nat, file.size),
{
    assert(strs_view(parts@).skip(0) =~= strs_view(parts@));
    insert_parts(node, parts, 0, depth, file.size)
}

// ---------------------------------------------------------------------------
// Ordering
// ---------------------------------------------------------------------------

/// `a` sorts before `b` lexicographically by character (the order of
/// `String`'s comparison).
pub open spec fn lex_lt(a: Seq<char>, b: Seq<char>) -> bool
    decreases a.len(),
{
    if a.len() == 0 {
        b.len() > 0
    } else if b.len() == 0 {
        false
    } else if a[0] != b[0] {
        a[0] < b[0]
    } else {
        lex_lt(a.drop_first(), b.drop_first())
    }
}

/// Display order of siblings: directories first, then by lowercased name.
pub open spec fn key_lt(a: NodeView, b: NodeView) -> bool {
    (a.is_dir && !b.is_dir) || (a.is_dir == b.is_dir && lex_lt(unicode_lower(a.name), unicode_lower(b.name)))
}

/// `x` inserted into `s` after every node it does not sort before.
pub open spec fn insert_sorted(s: Seq<NodeView>, x: NodeView) -> Seq<NodeView>
    decreases s.len(),
{
    if s.len() == 0 {
        seq![x]
    } else if key_lt(x, s.last()) {
        insert_sorted(s.drop_last(), x).push(s.last())
    } else {
        s.push(x)
    }
}

/// `s` in display order, equal keys keeping their order (a stable sort).
pub open spec fn stable_sort(s: Seq<NodeView>) -> Seq<NodeView>
    decreases s.len(),
{
    if s.len() == 0 {
        s
    } else {
        insert_sorted(stable_sort(s.drop_last()), s.last())
    }
}

/// `v` with the children at every level in display order.
pub open spec fn sort_tree(v: NodeView) -> NodeView
    decreases v,
{
    NodeView {
        name: v.name,
        path: v.path,
        is_dir: v.is_dir,
        size: v.size,
        children: stable_sort(sort_trees(v.children)),
        expanded: v.expanded,
        depth: v.depth,
    }
}

pub open spec fn sort_trees(s: Seq<NodeView>) -> Seq<NodeView>
    decreases s,
{
    if s.len() == 0 {
        s
    } else {
        sort_trees(s.drop_last()).push(sort_tree(s.last()))
    }
}

pub(crate) proof fn lemma_sort_trees_index(s: Seq<NodeView>)
    ensures
        sort_trees(s).len() == s.len(),
        forall|i: int| 0 <= i < s.len() ==> #[trigger] sort_trees(s)[i] == sort_tree(s[i]),
    decreases s.len(),
{
    if s.len() > 0 {
        lemma_sort_trees_index(s.drop_last());
        assert forall|i: int| 0 <= i < s.len() implies #[trigger] sort_trees(s)[i] == sort_tree(s[i]) by {
            if i < s.len() - 1 {
                assert(s.drop_last()[i] == s[i]);
            }
        }
    }
}

pub(crate) fn lex_less(a: &[char], b: &[char]) -> (r: bool)
    ensures
        r == lex_lt(a@, b@),
{
    let mut i: usize = 0;
    assert(a@.skip(0) =~= a@);
    assert(b@.skip(0) =~= b@);
    while i < a.len() && i < b.len() && a[i] == b[i]
        invariant
            i <= a.len(),
            i <= b.len(),
            lex_lt(a@, b@) == lex_lt(a@.skip(i as int), b@.skip(i as int)),
        decreases a.len() - i,
    {
        proof {
            assert(a@.skip(i as int).drop_first() =~= a@.skip(i + 1));
            assert(b@.skip(i as int).drop_first() =~= b@.skip(i + 1));
        }
        i += 1;
    }
    if i < a.len() && i < b.len() {
        a[i] < b[i]
    } else {
        i == a.len() && i < b.len()
    }
}

fn node_less(a: &FileTreeNode, b: &FileTreeNode) -> (r: bool)
    ensures
        r == key_lt(tview(*a), tview(*b)),
{
    if a.is_dir && !b.is_dir {
        return true;
    }
    if a.is_dir != b.is_dir {
        return false;
    }
    let la = str_to_lowercase(a.name.as_str());
    let lb = str_to_lowercase(b.name.as_str());
    let ca = crate::text::to_chars(la.as_str());
    let cb = crate::text::to_chars(lb.as_str());
    lex_less(ca.as_slice(), cb.as_slice())
}

proof fn lemma_views_insert(s: Seq<FileTreeNode>, p: int, x: FileTreeNode)
    requires
        0 <= p <= s.len(),
    ensures
        views_of(s.insert(p, x)) == views_of(s).take(p).push(tview(x)) + views_of(s).skip(p),
{
    lemma_views_index(s);
    lemma_views_index(s.insert(p, x));
    assert(views_of(s.insert(p, x)) =~= views_of(s).take(p).push(tview(x)) + views_of(s).skip(p));
}

fn insert_in_order(out: &mut Vec<FileTreeNode>, x: FileTreeNode)
    ensures
        views_of(final(out)@) == insert_sorted(views_of(old(out)@), tview(x)),
{
    let ghost ov = views_of(out@);
    let ghost tx = tview(x);
    proof {
        lemma_views_index(out@);
        assert(ov.take(ov.len() as int) =~= ov);
        assert(ov.skip(ov.len() as int) =~= Seq::<NodeView>::empty());
        assert(insert_sorted(ov, tx) =~= insert_sorted(ov.take(ov.len() as int), tx) + ov.skip(ov.len() as int));
    }
    let mut p: usize = out.len();
    while p > 0 && node_less(&x, &out[p - 1])
        invariant
            p <= out@.len(),
            ov == views_of(out@),
            ov.len() == out@.len(),
            tx == tview(x),
            forall|j: int| 0 <= j < out@.len() ==> #[trigger] ov[j] == tview(out@[j]),
            insert_sorted(ov, tx) == insert_sorted(ov.take(p as int), tx) + ov.skip(p as int),
        decreases p,
    {
        proof {
            let t = ov.take(p as int);
            assert(t.last() == ov[p - 1]);
            assert(t.drop_last() =~= ov.take(p - 1));
            assert(insert_sorted(t, tx) == insert_sorted(ov.take(p - 1), tx).push(ov[p - 1]));
            assert(insert_sorted(ov.take(p - 1), tx).push(ov[p - 1]) + ov.skip(p as int) =~= insert_sorted(
                ov.take(p - 1),
                tx,
            ) + ov.skip(p - 1));
        }
        p -= 1;
    }
    proof {
        let t = ov.take(p as int);
        if p == 0 {
            assert(insert_sorted(t, tx) =~= seq![tx]);
        } else {
            assert(t.last() == ov[p - 1]);
            assert(insert_sorted(t, tx) == t.push(tx));
        }
        assert(insert_sorted(t, tx) =~= ov.take(p as int).push(tx));
    }
    let ghost before = out@;
    out.insert(p, x);
    proof {
        lemma_views_insert(before, p as int, x);
    }
}

fn sort_children(v: Vec<FileTreeNode>) -> (r: Vec<FileTreeNode>)
    ensures
        views_of(r@) == stable_sort(views_of(v@)),
{
    let ghost sv = views_of(v@);
    proof {
        lemma_views_index(v@);
    }
    let mut src = v;
    let mut out: Vec<FileTreeNode> = Vec::new();
    let n = src.len();
    let mut i: usize = 0;
    assert(views_of(out@) =~= stable_sort(sv.take(0)));
    while i < n
        invariant
            i <= n,
            n == v@.len(),
            sv == views_of(v@),
            sv.len() == v@.len(),
            forall|j: int| 0 <= j < v@.len() ==> #[trigger] sv[j] == tview(v@[j]),
            src@ == v@.skip(i as int),
            views_of(out@) == stable_sort(sv.take(i as int)),
        decreases n - i,
    {
        let x = src.remove(0);
        proof {
            assert(x == v@[i as int]);
            assert(src@ =~= v@.skip(i + 1));
            assert(sv.take(i + 1).drop_last() =~= sv.take(i as int));
            assert(sv.take(i + 1).last() == tview(x));
        }
        insert_in_order(&mut out, x);
        i += 1;
    }
    assert(sv.take(n as int) =~= sv);
    out
}

/// Puts the children at every level in display order: directories first,
/// then by lowercased name, equal keys keeping their order.
pub fn sort_tree_recursive(node: &mut FileTreeNode)
    ensures
        tview(*final(node)) == sort_tree(tview(*old(node))),
    decreases *old(node),
{
    let ghost cv = views_of(node.children@);
    proof {
        lemma_views_index(node.children@);
    }
    let mut i: usize = 0;
    while i < node.children.len()
        invariant
            i <= node.children@.len(),
            node.children@.len() == old(node).children@.len(),
            cv == views_of(old(node).children@),
            cv.len() == old(node).children@.len(),
            forall|j: int| 0 <= j < old(node).children@.len() ==> #[trigger] cv[j] == tview(old(node).children@[j]),
            forall|j: int| 0 <= j < i ==> #[trigger] tview(node.children@[j]) == sort_tree(cv[j]),
            forall|j: int| i <= j < node.children@.len() ==> #[trigger] node.children@[j] == old(node).children@[j],
            node.name == old(node).name,
            node.path == old(node).path,
            node.is_dir == old(node).is_dir,
            node.size == old(node).size,
            node.expanded == old(node).expanded,
            node.depth == old(node).depth,
        decreases node.children.len() - i,
    {
        sort_tree_recursive(&mut node.children[i]);
        i += 1;
    }
    proof {
        lemma_sort_trees_index(cv);
        lemma_views_ext(node.children@, sort_trees(cv));
    }
    let mut cs: Vec<FileTreeNode> = Vec::new();
    std::mem::swap(&mut node.children, &mut cs);
    node.children = sort_children(cs);
}

// ---------------------------------------------------------------------------
// Building the tree
// ---------------------------------------------------------------------------

/// Total size of the files below `v` (unknown sizes count 0).
pub open spec fn vtotal(v: NodeView) -> nat
    decreases v,
{
    if v.is_dir {
        vtotal_all(v.children)
    } else {
        match v.size {
            Some(s) => s as nat,
            None => 0,
        }
    }
}

pub open spec fn vtotal_all(s: Seq<NodeView>) -> nat
    decreases s,
{
    if s.len() == 0 {
        0
    } else {
        vtotal_all(s.drop_last()) + vtotal(s.last())
    }
}

/// `v` with every directory's size set to the total of its files.
pub open spec fn vsized(v: NodeView) -> NodeView
    decreases v,
{
    if v.is_dir {
        NodeView {
            name: v.name,
            path: v.path,
            is_dir: v.is_dir,
            size: Some(vtotal(v) as u64),
            children: vsized_all(v.children),
            expanded: v.expanded,
            depth: v.depth,
        }
    } else {
        v
    }
}

pub open spec fn vsized_all(s: Seq<NodeView>) -> Seq<NodeView>
    decreases s,
{
    if s.len() == 0 {
        s
    } else {
        vsized_all(s.drop_last()).push(vsized(s.last()))
    }
}

/// The root of an empty tree: an expanded, unnamed directory.
pub open spec fn root_view() -> NodeView {
    NodeView {
        name: Seq::<char>::empty(),
        path: Seq::<char>::empty(),
        is_dir: true,
        size: None,
        children: Seq::<NodeView>::empty(),
        expanded: true,
        depth: 0,
    }
}

/// The tree with every file of the listing inserted, in order, by the
/// `/`-separated parts of its name.
pub open spec fn built(files: Seq<RepoFile>) -> NodeView
    decreases files.len(),
{
    if files.len() == 0 {
        root_view()
    } else {
        inserted(built(files.drop_last()), split_on(files.last().rfilename@, '/'), 0, files.last().size)
    }
}

proof fn lemma_total_view(n: FileTreeNode)
    ensures
        tree_total(n) == vtotal(tview(n)),
    decreases n,
{
    lemma_total_view_all(n.children@);
}

proof fn lemma_total_view_all(s: Seq<FileTreeNode>)
    ensures
        tree_total_all(s) == vtotal_all(views_of(s)),
    decreases s,
{
    if s.len() > 0 {
        lemma_total_view_all(s.drop_last());
        lemma_total_view(s.last());
        assert(views_of(s).drop_last() =~= views_of(s.drop_last()));
        assert(views_of(s).last() == tview(s.last()));
    }
}

proof fn lemma_sizes_view(o: FileTreeNode, n: FileTreeNode)
    requires
        sizes_filled(o, n),
    ensures
        tview(n) == vsized(tview(o)),
    decreases o,
{
    if o.is_dir {
        lemma_sizes_view_all(o.children@, n.children@);
        lemma_total_view(o);
    }
}

proof fn lemma_sizes_view_all(os: Seq<FileTreeNode>, ns: Seq<FileTreeNode>)
    requires
        sizes_filled_all(os, ns),
    ensures
        views_of(ns) == vsized_all(views_of(os)),
    decreases os,
{
    if os.len() > 0 {
        lemma_sizes_view_all(os.drop_last(), ns.drop_last());
        lemma_sizes_view(os.last(), ns.last());
        assert(views_of(os).drop_last() =~= views_of(os.drop_last()));
        assert(views_of(os).last() == tview(os.last()));
        assert(views_of(ns) =~= vsized_all(views_of(os)));
    }
}

proof fn lemma_insert_sorted_total(s: Seq<NodeView>, x: NodeView)
    ensures
        vtotal_all(insert_sorted(s, x)) == vtotal_all(s) + vtotal(x),
    decreases s.len(),
{
    if s.len() > 0 {
        if key_lt(x, s.last()) {
            lemma_insert_sorted_total(s.drop_last(), x);
            let t = insert_sorted(s.drop_last(), x);
            assert(t.push(s.last()).drop_last() =~= t);
            assert(t.push(s.last()).last() == s.last());
            assert(vtotal_all(t.push(s.last())) == vtotal_all(t) + vtotal(s.last()));
        } else {
            assert(s.push(x).drop_last() =~= s);
            assert(s.push(x).last() == x);
            assert(vtotal_all(s.push(x)) == vtotal_all(s) + vtotal(x));
        }
    } else {
        assert(seq![x].drop_last() =~= Seq::<NodeView>::empty());
        assert(seq![x].last() == x);
        assert(vtotal_all(seq![x]) == vtotal_all(Seq::<NodeView>::empty()) + vtotal(x));
    }
}

proof fn lemma_stable_sort_total(s: Seq<NodeView>)
    ensures
        vtotal_all(stable_sort(s)) == vtotal_all(s),
    decreases s.len(),
{
    if s.len() > 0 {
        lemma_stable_sort_total(s.drop_last());
        lemma_insert_sorted_total(stable_sort(s.drop_last()), s.last());
    }
}

pub(crate) proof fn lemma_sort_tree_total(v: NodeView)
    ensures
        vtotal(sort_tree(v)) == vtotal(v),
    decreases v,
{
    lemma_sort_trees_total(v.children);
    lemma_stable_sort_total(sort_trees(v.children));
}

proof fn lemma_sort_trees_total(s: Seq<NodeView>)
    ensures
        vtotal_all(sort_trees(s)) == vtotal_all(s),
    decreases s,
{
    if s.len() > 0 {
        lemma_sort_trees_total(s.drop_last());
        lemma_sort_tree_total(s.last());
        assert(sort_trees(s).drop_last() == sort_trees(s.drop_last()));
    }
}

fn split_path(name: &String) -> (r: Vec<String>)
    ensures
        strs_view(r@) == split_on(name@, '/'),
{
    let cs = crate::text::to_chars(name.as_str());
    let pieces = split_chars(cs.as_slice(), '/');
    let mut r: Vec<String> = Vec::new();
    let mut i: usize = 0;
    while i < pieces.len()
        invariant
            i <= pieces@.len(),
            cs@ == name@,
            pieces@.len() == split_on(cs@, '/').len(),
            forall|k: int| 0 <= k < pieces@.len() ==> (#[trigger] pieces@[k])@ == split_on(cs@, '/')[k],
            r@.len() == i,
            forall|k: int| 0 <= k < i ==> (#[trigger] r@[k])@ == split_on(cs@, '/')[k],
        decreases pieces.len() - i,
    {
        r.push(crate::text::from_chars(pieces[i].as_slice()));
        i += 1;
    }
    assert(strs_view(r@) =~= split_on(name@, '/'));
    r
}

/// Builds the display tree from the flat listing: every file inserted by
/// the parts of its path, children in display order at every level, and
/// each directory's size the total of the files within it.
pub fn build_file_tree(files: Vec<RepoFile>) -> (r: FileTreeNode)
    requires
        vtotal(built(files@)) <= u64::MAX,
    ensures
        tview(r) == vsized(sort_tree(built(files@))),
        well_shaped(tview(r)),
        listing_is_tree(files@) ==> forall|i: int| 0 <= i < files@.len() ==> holds_file(tview(r), #[trigger] files@[i]),
        forall|q: Seq<Seq<char>>| #[trigger] file_node_at(tview(r), q) ==> exists|i: int|
            0 <= i < files@.len() && parts_of(#[trigger] files@[i]) == q,
{
    let mut root = FileTreeNode {
        name: String::new(),
        path: String::new(),
        is_dir: true,
        size: None,
        children: Vec::new(),
        expanded: true,
        depth: 0,
    };
    assert(views_of(root.children@) =~= Seq::<NodeView>::empty());
    assert(tview(root) =~= root_view());
    let mut i: usize = 0;
    while i < files.len()
        invariant
            i <= files@.len(),
            tview(root) == built(files@.take(i as int)),
            forall|j: int| 0 <= j < i ==> split_on(#[trigger] files@[j].rfilename@, '/').len() <= usize::MAX,
        decreases files.len() - i,
    {
        proof {
            assert(files@.take(i + 1).drop_last() =~= files@.take(i as int));
            assert(files@.take(i + 1).last() == files@[i as int]);
        }
        let parts = split_path(&files[i].rfilename);
        let _count = parts.len();
        assert(split_on(files@[i as int].rfilename@, '/').len() == parts@.len());
        insert_into_tree(&mut root, &parts, 0, &files[i]);
        i += 1;
    }
    assert(files@.take(files@.len() as int) =~= files@);
    sort_tree_recursive(&mut root);
    proof {
        lemma_sort_tree_total(built(files@));
        lemma_total_view(root);
    }
    let ghost sorted = root;
    calculate_directory_sizes(&mut root);
    proof {
        lemma_sizes_view(sorted, root);
        law_built_tree_well_shaped(files@);
        if listing_is_tree(files@) {
            law_built_tree_holds_every_file(files@);
        }
        assert forall|q: Seq<Seq<char>>| #[trigger] file_node_at(tview(root), q) implies exists|i: int|
            0 <= i < files@.len() && parts_of(#[trigger] files@[i]) == q by {
            law_built_tree_files_are_listed(files@, q);
        }
    }
    root
}

proof fn lemma_total_all_prefix(s: Seq<FileTreeNode>, k: int)
    requires
        0 <= k < s.len(),
    ensures
        tree_total_all(s) >= tree_total_all(s.take(k)) + tree_total(s[k]),
    decreases s.len(),
{
    if k < s.len() - 1 {
        lemma_total_all_prefix(s.drop_last(), k);
        assert(s.drop_last().take(k) =~= s.take(k));
        assert(s.drop_last()[k] == s[k]);
    } else {
        assert(s.drop_last() =~= s.take(k));
    }
}

/// The total size of the files below `n`, or `None` when it does not fit
/// in a `u64`.
pub fn checked_tree_total(n: &FileTreeNode) -> (r: Option<u64>)
    ensures
        match r {
            Some(t) => t == tree_total(*n),
            None => tree_total(*n) > u64::MAX,
        },
    decreases n,
{
    if n.is_dir {
        let mut total: u64 = 0;
        let mut i: usize = 0;
        while i < n.children.len()
            invariant
                n.is_dir,
                i <= n.children@.len(),
                total == tree_total_all(n.children@.take(i as int)),
            decreases n.children.len() - i,
        {
            proof {
                let c = n.children@;
                assert(c.take(i + 1).drop_last() =~= c.take(i as int));
                assert(c.take(i + 1).last() == c[i as int]);
                lemma_total_all_prefix(c, i as int);
            }
            match checked_tree_total(&n.children[i]) {
                Some(x) => match total.checked_add(x) {
                    Some(t) => {
                        total = t;
                    },
                    None => {
                        return None;
                    },
                },
                None => {
                    return None;
                },
            }
            i += 1;
        }
        proof {
            assert(n.children@.take(n.children@.len() as int) =~= n.children@);
        }
        Some(total)
    } else {
        match n.size {
            Some(s) => Some(s),
            None => Some(0),
        }
    }
}

/// Builds the display tree as [`build_file_tree`] does, or `None` when the
/// total size of the files does not fit in a `u64`.
pub fn try_build_file_tree(files: Vec<RepoFile>) -> (r: Option<FileTreeNode>)
    ensures
        match r {
            Some(t) => vtotal(built(files@)) <= u64::MAX && tview(t) == vsized(sort_tree(built(files@))),
            None => vtotal(built(files@)) > u64::MAX,
        },
{
    let mut root = FileTreeNode {
        name: String::new(),
        path: String::new(),
        is_dir: true,
        size: None,
        children: Vec::new(),
        expanded: true,
        depth: 0,
    };
    assert(views_of(root.children@) =~= Seq::<NodeView>::empty());
    assert(tview(root) =~= root_view());
    let mut i: usize = 0;
    while i < files.len()
        invariant
            i <= files@.len(),
            tview(root) == built(files@.take(i as int)),
        decreases files.len() - i,
    {
        proof {
            assert(files@.take(i + 1).drop_last() =~= files@.take(i as int));
            assert(files@.take(i + 1).last() == files@[i as int]);
        }
        let parts = split_path(&files[i].rfilename);
        let _count = parts.len();
        insert_into_tree(&mut root, &parts, 0, &files[i]);
        i += 1;
    }
    assert(files@.take(files@.len() as int) =~= files@);
    sort_tree_recursive(&mut root);
    proof {
        lemma_sort_tree_total(built(files@));
        lemma_total_view(root);
    }
    if checked_tree_total(&root).is_none() {
        return None;
    }
    let ghost sorted = root;
    calculate_directory_sizes(&mut root);
    proof {
        lemma_sizes_view(sorted, root);
    }
    Some(root)
}

} // verus!
