//! The directory tree and the entries of it that take part in a renaming.
use vstd::prelude::*;

verus! {

/// A file or directory with what it holds.
#[derive(Debug)]
pub struct TreeNode {
    pub path: usize,
    pub name: String,
    pub is_dir: bool,
    pub renameable: bool,
    pub children: Vec<TreeNode>,
}

/// A node of the flattened tree.
#[derive(Debug)]
pub struct FlatNode {
    pub path: usize,
    pub name: String,
    pub is_dir: bool,
    pub renameable: bool,
}

/// An entry that takes part in a renaming.
#[derive(Debug)]
pub struct FileEntry {
    pub path: usize,
    pub name: String,
    pub is_dir: bool,
}

/// The nodes of a tree, each directory before what it holds.
pub open spec fn nodes_of(node: TreeNode) -> Seq<TreeNode>
    decreases node,
{
    seq![node] + forest_nodes(node.children@)
}

/// The nodes of several trees, one tree after another.
pub open spec fn forest_nodes(trees: Seq<TreeNode>) -> Seq<TreeNode>
    decreases trees,
{
    if trees.len() == 0 {
        Seq::empty()
    } else {
        forest_nodes(trees.drop_last()) + nodes_of(trees.last())
    }
}

/// The number of levels of a tree.
pub open spec fn levels(node: TreeNode) -> nat
    decreases node,
{
    1 + forest_levels(node.children@)
}

/// The number of levels of the highest of several trees.
pub open spec fn forest_levels(trees: Seq<TreeNode>) -> nat
    decreases trees,
{
    if trees.len() == 0 {
        0
    } else {
        let rest = forest_levels(trees.drop_last());
        let last = levels(trees.last());
        if rest < last {
            last
        } else {
            rest
        }
    }
}

/// Whether `p` is the path of one of the nodes.
pub open spec fn path_among(nodes: Seq<TreeNode>, p: usize) -> bool {
    exists|i: int| 0 <= i < nodes.len() && (#[trigger] nodes[i]).path == p
}

/// The paths of two runs of nodes are those of the one and those of the other.
pub proof fn paths_of_both(a: Seq<TreeNode>, b: Seq<TreeNode>, p: usize)
    ensures
        path_among(a + b, p) == (path_among(a, p) || path_among(b, p)),
{
    if path_among(a + b, p) {
        let i = choose|i: int| 0 <= i < (a + b).len() && (#[trigger] (a + b)[i]).path == p;
        if i < a.len() {
            assert(a[i].path == p);
        } else {
            assert(b[i - a.len()].path == p);
        }
    }
    if path_among(a, p) {
        let i = choose|i: int| 0 <= i < a.len() && (#[trigger] a[i]).path == p;
        assert((a + b)[i].path == p);
    }
    if path_among(b, p) {
        let i = choose|i: int| 0 <= i < b.len() && (#[trigger] b[i]).path == p;
        assert((a + b)[a.len() + i].path == p);
    }
}

/// Counts the nodes of a tree, its root among them, as far as they can be counted.
pub fn count_nodes(node: &TreeNode) -> (r: Option<usize>)
    ensures
        match r {
            Some(n) => n == nodes_of(*node).len(),
            None => nodes_of(*node).len() > usize::MAX,
        },
    decreases node,
{
    let mut total: usize = 1;
    let mut i: usize = 0;
    while i < node.children.len()
        invariant
            0 <= i <= node.children@.len(),
            total == 1 + forest_nodes(node.children@.take(i as int)).len(),
        decreases node.children@.len() - i,
    {
        proof {
            assert(node.children@.take(i + 1).drop_last() =~= node.children@.take(i as int));
            forest_prefix(node.children@, i + 1);
        }
        let more = count_nodes(&node.children[i]);
        match more {
            Some(n) => {
                if n > usize::MAX - total {
                    return None;
                }
                total = total + n;
            },
            None => {
                return None;
            },
        }
        i = i + 1;
    }
    assert(node.children@.take(i as int) =~= node.children@);
    Some(total)
}

/// A tree has no more levels than nodes.
pub proof fn no_more_levels_than_nodes(node: TreeNode)
    ensures
        levels(node) <= nodes_of(node).len(),
    decreases node,
{
    no_more_forest_levels(node.children@);
}

/// The same of several trees.
proof fn no_more_forest_levels(trees: Seq<TreeNode>)
    ensures
        forest_levels(trees) <= forest_nodes(trees).len(),
    decreases trees,
{
    if trees.len() > 0 {
        no_more_forest_levels(trees.drop_last());
        no_more_levels_than_nodes(trees.last());
    }
}

/// The first trees hold no more nodes than all of them.
proof fn forest_prefix(trees: Seq<TreeNode>, n: int)
    requires
        0 <= n <= trees.len(),
    ensures
        forest_nodes(trees.take(n)).len() <= forest_nodes(trees).len(),
    decreases trees.len(),
{
    if n == trees.len() {
        assert(trees.take(n) =~= trees);
    } else {
        assert(trees.drop_last().take(n) =~= trees.take(n));
        forest_prefix(trees.drop_last(), n);
    }
}

/// The entry that stands for a node.
pub open spec fn entry_of(node: FlatNode) -> FileEntry {
    FileEntry { path: node.path, name: node.name, is_dir: node.is_dir }
}

/// The entries that take part in a renaming, in the order of the nodes.
pub open spec fn entries_of(nodes: Seq<FlatNode>) -> Seq<FileEntry> {
    nodes.filter(|n: FlatNode| n.renameable).map_values(|n: FlatNode| entry_of(n))
}

/// Collects the entries that take part in a renaming.
pub fn collect_entries(nodes: &Vec<FlatNode>) -> (r: Vec<FileEntry>)
    ensures
        r@ == entries_of(nodes@),
{
    let mut r: Vec<FileEntry> = Vec::new();
    let mut i: usize = 0;
    proof {
        reveal(Seq::filter);
        assert(nodes@.take(0) =~= Seq::<FlatNode>::empty());
        assert(entries_of(nodes@.take(0)) =~= Seq::<FileEntry>::empty());
    }
    while i < nodes.len()
        invariant
            0 <= i <= nodes@.len(),
            r@ == entries_of(nodes@.take(i as int)),
        decreases nodes@.len() - i,
    {
        proof {
            reveal(Seq::filter);
            assert(nodes@.take(i + 1).drop_last() =~= nodes@.take(i as int));
        }
        let n = &nodes[i];
        if n.renameable {
            r.push(FileEntry { path: n.path, name: n.name.clone(), is_dir: n.is_dir });
        }
        assert(r@ =~= entries_of(nodes@.take(i + 1)));
        i = i + 1;
    }
    assert(nodes@.take(i as int) =~= nodes@);
    r
}

/// How many of the first `n` nodes may be renamed.
pub open spec fn renameable_among(nodes: Seq<FlatNode>, n: int) -> nat
    decreases n,
{
    if n <= 0 {
        0
    } else {
        renameable_among(nodes, n - 1) + (if nodes[n - 1].renameable {
            1nat
        } else {
            0nat
        })
    }
}

/// The count depends on the first nodes alone.
proof fn renameable_among_first(a: Seq<FlatNode>, b: Seq<FlatNode>, n: int)
    requires
        n <= a.len(),
        n <= b.len(),
        forall|i: int| 0 <= i < n ==> a[i] == b[i],
    ensures
        renameable_among(a, n) == renameable_among(b, n),
    decreases n,
{
    if n > 0 {
        renameable_among_first(a, b, n - 1);
    }
}

/// Whether node `i` may be renamed and `j` such nodes stand before it.
pub open spec fn ranks(nodes: Seq<FlatNode>, i: int, j: int) -> bool {
    0 <= i < nodes.len() && nodes[i].renameable && renameable_among(nodes, i) == j
}

/// Whether some node that may be renamed has `j` such nodes before it.
pub open spec fn is_rank(nodes: Seq<FlatNode>, j: int) -> bool {
    exists|i: int| #[trigger] ranks(nodes, i, j)
}

/// Every node that may be renamed, directory or file alike, takes part under its own path, name and
/// kind, at the place that its rank among such nodes gives it, and nothing else takes part.
pub proof fn renameable_nodes_take_part(nodes: Seq<FlatNode>)
    ensures
        entries_of(nodes).len() == renameable_among(nodes, nodes.len() as int),
        forall|i: int, j: int| #[trigger]
            ranks(nodes, i, j) ==> {
                &&& 0 <= j < entries_of(nodes).len()
                &&& entries_of(nodes)[j].path == nodes[i].path
                &&& entries_of(nodes)[j].name == nodes[i].name
                &&& entries_of(nodes)[j].is_dir == nodes[i].is_dir
            },
        forall|j: int| 0 <= j < entries_of(nodes).len() ==> #[trigger] is_rank(nodes, j),
    decreases nodes.len(),
{
    reveal(Seq::filter);
    let all = entries_of(nodes);
    if nodes.len() == 0 {
        assert(all.len() == 0);
    } else {
        let rest = nodes.drop_last();
        let last = nodes.len() - 1;
        renameable_nodes_take_part(rest);
        renameable_among_first(nodes, rest, last);
        assert(renameable_among(nodes, last + 1) == renameable_among(rest, last) + (
        if nodes[last].renameable {
            1nat
        } else {
            0nat
        }));
        if nodes[last].renameable {
            assert(all =~= entries_of(rest).push(entry_of(nodes[last])));
        } else {
            assert(all =~= entries_of(rest));
        }
        assert forall|i: int, j: int| #[trigger] ranks(nodes, i, j) implies {
            &&& 0 <= j < all.len()
            &&& all[j].path == nodes[i].path
            &&& all[j].name == nodes[i].name
            &&& all[j].is_dir == nodes[i].is_dir
        } by {
            if i < last {
                renameable_among_first(nodes, rest, i);
                assert(ranks(rest, i, j));
            }
        }
        assert forall|j: int| 0 <= j < all.len() implies #[trigger] is_rank(nodes, j) by {
            if j < entries_of(rest).len() {
                assert(is_rank(rest, j));
                let i = choose|i: int| #[trigger] ranks(rest, i, j);
                renameable_among_first(nodes, rest, i);
                assert(ranks(nodes, i, j));
            } else {
                assert(ranks(nodes, last, j));
            }
        }
    }
}

/// The nodes of a tree are the tree itself and then, one behind another, the nodes of each tree in
/// it; those of two runs of trees are those of the one and then those of the other. None is left
/// out.
pub proof fn no_node_is_left_out(node: TreeNode, a: Seq<TreeNode>, b: Seq<TreeNode>)
    ensures
        nodes_of(node)[0] == node,
        nodes_of(node).drop_first() == forest_nodes(node.children@),
        forest_nodes(Seq::empty()) == Seq::<TreeNode>::empty(),
        forest_nodes(seq![node]) == nodes_of(node),
        forest_nodes(a + b) == forest_nodes(a) + forest_nodes(b),
    decreases b.len(),
{
    assert(nodes_of(node).drop_first() =~= forest_nodes(node.children@));
    assert(seq![node].drop_last() =~= Seq::<TreeNode>::empty());
    assert(forest_nodes(seq![node].drop_last()) =~= Seq::<TreeNode>::empty());
    assert(forest_nodes(seq![node]) =~= nodes_of(node));
    if b.len() == 0 {
        assert(a + b =~= a);
        assert(forest_nodes(a + b) =~= forest_nodes(a) + forest_nodes(b));
    } else {
        no_node_is_left_out(node, a, b.drop_last());
        assert((a + b).drop_last() =~= a + b.drop_last());
        assert(forest_nodes(a + b) =~= forest_nodes(a) + forest_nodes(b));
    }
}

} // verus!
