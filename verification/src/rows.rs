//! The rows of the preview table: which nodes are shown, in which order, and what they show.
use crate::filter::status_word;
use crate::preview::{PreviewRow, PreviewStatus};
use crate::tree::TreeNode;
use std::collections::{HashMap, HashSet};
use vstd::prelude::*;

verus! {

broadcast use vstd::std_specs::hash::group_hash_axioms;

/// What the shown rows depend on besides the tree.
pub struct Scene {
    /// The rows of the preview by path.
    pub rows: Map<usize, PreviewRow>,
    /// The directories that were opened.
    pub expanded: Set<usize>,
    /// The root that was closed, where one was.
    pub folded_root: Option<usize>,
    /// The status to show, or everything.
    pub filter: Option<PreviewStatus>,
    /// The paths that lead to something of that status.
    pub hits: Set<usize>,
}

/// A row of the preview table.
#[derive(Debug)]
pub struct TreeRow {
    pub path: usize,
    pub name: String,
    pub is_dir: bool,
    /// How far the name is indented.
    pub depth: usize,
    /// Whether what the directory holds is shown below it.
    pub is_open: bool,
    /// The verdict on the node; nodes that take no part in the renaming have none.
    pub status: Option<PreviewStatus>,
    pub new_name: Option<String>,
    /// The remark on the verdict, where there is one.
    pub note: Option<String>,
}

/// Whether the filter lets a node be shown: a file where it has the wanted status, a directory
/// also where it leads to something that has.
pub open spec fn passes(node: TreeNode, scene: Scene) -> bool {
    match scene.filter {
        None => true,
        Some(st) => crate::filter::matches_status(scene.rows, node.path, st) || (node.is_dir
            && scene.hits.contains(node.path)),
    }
}

/// The row of a node.
pub open spec fn node_row(node: TreeNode, depth: nat, is_open: bool, scene: Scene) -> TreeRow {
    let judged = scene.rows.contains_key(node.path);
    let row = scene.rows[node.path];
    TreeRow {
        path: node.path,
        name: node.name,
        is_dir: node.is_dir,
        depth: depth as usize,
        is_open,
        status: if judged {
            Some(row.status)
        } else {
            None
        },
        new_name: if judged {
            Some(row.new_name)
        } else {
            None
        },
        note: if judged && row.note@.len() > 0 {
            Some(row.note)
        } else {
            None
        },
    }
}

/// Whether what a node holds is shown. The root is open without having been opened, unless it was
/// closed.
pub open spec fn opened(node: TreeNode, is_root: bool, scene: Scene) -> bool {
    node.is_dir && (scene.expanded.contains(node.path) || (is_root && scene.folded_root != Some(
        node.path,
    )))
}

/// The rows that show a tree.
pub open spec fn shown(node: TreeNode, is_root: bool, depth: nat, scene: Scene) -> Seq<TreeRow>
    decreases node,
{
    if !passes(node, scene) {
        Seq::empty()
    } else {
        let is_open = opened(node, is_root, scene);
        seq![node_row(node, depth, is_open, scene)] + (if is_open {
            shown_forest(node.children@, depth + 1, scene)
        } else {
            Seq::empty()
        })
    }
}

/// The rows that show what a directory holds.
pub open spec fn shown_forest(trees: Seq<TreeNode>, depth: nat, scene: Scene) -> Seq<TreeRow>
    decreases trees,
{
    if trees.len() == 0 {
        Seq::empty()
    } else {
        shown_forest(trees.drop_last(), depth, scene) + shown(trees.last(), false, depth, scene)
    }
}

/// No tree of a forest has more levels than the forest.
proof fn tree_within_forest(trees: Seq<TreeNode>, i: int)
    requires
        0 <= i < trees.len(),
    ensures
        crate::tree::levels(trees[i]) <= crate::tree::forest_levels(trees),
    decreases trees.len(),
{
    if i < trees.len() - 1 {
        tree_within_forest(trees.drop_last(), i);
    }
}

/// Adds the rows that show a tree.
fn add_shown(
    node: &TreeNode,
    is_root: bool,
    depth: usize,
    rows: &HashMap<usize, PreviewRow>,
    expanded: &HashSet<usize>,
    folded_root: Option<usize>,
    filter: Option<PreviewStatus>,
    hits: &HashSet<usize>,
    out: &mut Vec<TreeRow>,
)
    requires
        depth + crate::tree::levels(*node) <= usize::MAX,
    ensures
        final(out)@ == old(out)@ + shown(
            *node,
            is_root,
            depth as nat,
            (Scene {
                rows: rows@,
                expanded: expanded@,
                folded_root,
                filter,
                hits: hits@,
            }),
        ),
    decreases node,
{
    let ghost scene = Scene {
        rows: rows@,
        expanded: expanded@,
        folded_root,
        filter,
        hits: hits@,
    };
    let row = rows.get(&node.path);
    match filter {
        None => {},
        Some(st) => {
            let matching: bool = match row {
                Some(r) => r.status == st,
                None => false,
            };
            if !matching && !(node.is_dir && hits.contains(&node.path)) {
                assert(out@ =~= old(out)@ + Seq::<TreeRow>::empty());
                return ;
            }
        },
    }
    let stays_open: bool = match folded_root {
        Some(p) => p != node.path,
        None => true,
    };
    let is_open: bool = node.is_dir && (expanded.contains(&node.path) || (is_root && stays_open));
    let shown_row = match row {
        Some(r) => TreeRow {
            path: node.path,
            name: node.name.clone(),
            is_dir: node.is_dir,
            depth,
            is_open,
            status: Some(r.status),
            new_name: Some(r.new_name.clone()),
            note: if r.note.as_str().is_empty() {
                None
            } else {
                Some(r.note.clone())
            },
        },
        None => TreeRow {
            path: node.path,
            name: node.name.clone(),
            is_dir: node.is_dir,
            depth,
            is_open,
            status: None,
            new_name: None,
            note: None,
        },
    };
    out.push(shown_row);
    let ghost head = seq![node_row(*node, depth as nat, is_open, scene)];
    if is_open {
        let mut k: usize = 0;
        assert(out@ =~= old(out)@ + head + shown_forest(
            node.children@.take(0),
            (depth + 1) as nat,
            scene,
        ));
        while k < node.children.len()
            invariant
                0 <= k <= node.children@.len(),
                depth + crate::tree::levels(*node) <= usize::MAX,
                scene == (Scene {
                    rows: rows@,
                    expanded: expanded@,
                    folded_root,
                    filter,
                    hits: hits@,
                }),
                out@ == old(out)@ + head + shown_forest(
                    node.children@.take(k as int),
                    (depth + 1) as nat,
                    scene,
                ),
            decreases node.children@.len() - k,
        {
            proof {
                tree_within_forest(node.children@, k as int);
                assert(node.children@.take(k + 1).drop_last() =~= node.children@.take(k as int));
            }
            add_shown(
                &node.children[k],
                false,
                depth + 1,
                rows,
                expanded,
                folded_root,
                filter,
                hits,
                out,
            );
            assert(out@ =~= old(out)@ + head + shown_forest(
                node.children@.take(k + 1),
                (depth + 1) as nat,
                scene,
            ));
            k = k + 1;
        }
        assert(node.children@.take(k as int) =~= node.children@);
    }
    assert(out@ =~= old(out)@ + shown(*node, is_root, depth as nat, scene));
}

/// Lays out the rows that show a tree.
pub fn lay_out(
    tree: &TreeNode,
    rows: &HashMap<usize, PreviewRow>,
    expanded: &HashSet<usize>,
    folded_root: Option<usize>,
    filter: Option<PreviewStatus>,
    hits: &HashSet<usize>,
) -> (r: Vec<TreeRow>)
    requires
        crate::tree::nodes_of(*tree).len() <= usize::MAX,
    ensures
        r@ == shown(
            *tree,
            true,
            0,
            (Scene {
                rows: rows@,
                expanded: expanded@,
                folded_root,
                filter,
                hits: hits@,
            }),
        ),
{
    let mut out: Vec<TreeRow> = Vec::new();
    proof {
        crate::tree::no_more_levels_than_nodes(*tree);
    }
    add_shown(tree, true, 0, rows, expanded, folded_root, filter, hits, &mut out);
    assert(out@ =~= shown(
        *tree,
        true,
        0,
        (Scene { rows: rows@, expanded: expanded@, folded_root, filter, hits: hits@ }),
    ));
    out
}

/// A colour of the preview table.
#[derive(Debug, Clone, Copy, PartialEq, Eq, Structural)]
pub enum Tint {
    /// Red, green and blue.
    Rgb(u8, u8, u8),
    /// The toolkit's own gray.
    Gray,
}

/// The colour of a verdict, or of a node without one.
pub open spec fn tint_of(status: Option<PreviewStatus>) -> Tint {
    match status {
        None => Tint::Rgb(0xA0, 0xA0, 0xA0),
        Some(PreviewStatus::Ready) => Tint::Rgb(0x2e, 0x8b, 0x57),
        Some(PreviewStatus::Conflict) => Tint::Rgb(0xc0, 0x39, 0x2b),
        Some(PreviewStatus::Error) => Tint::Rgb(0x8b, 0x00, 0x00),
        Some(PreviewStatus::Unchanged) => Tint::Gray,
    }
}

/// What a double click asks for.
#[derive(Debug, Clone, Copy, PartialEq, Eq, Structural)]
pub enum PreviewAction {
    /// Nothing.
    Nothing,
    /// Open the directory.
    Open(usize),
    /// Open the directory that holds the file and point at the file.
    Reveal(usize),
    /// Read the directory again.
    Refresh,
}

impl TreeRow {
    /// The colour of the verdict.
    pub fn tint(&self) -> (r: Tint)
        ensures
            r == tint_of(self.status),
    {
        match self.status {
            None => Tint::Rgb(0xA0, 0xA0, 0xA0),
            Some(PreviewStatus::Ready) => Tint::Rgb(0x2e, 0x8b, 0x57),
            Some(PreviewStatus::Conflict) => Tint::Rgb(0xc0, 0x39, 0x2b),
            Some(PreviewStatus::Error) => Tint::Rgb(0x8b, 0x00, 0x00),
            Some(PreviewStatus::Unchanged) => Tint::Gray,
        }
    }

    /// The word in the status column. A file without a verdict is marked as skipped; a directory
    /// without one has an empty cell.
    pub fn status_cell(&self) -> (r: Option<&'static str>)
        ensures
            match r {
                Some(word) => match self.status {
                    Some(st) => word@ == crate::filter::bar_word(Some(st)),
                    None => !self.is_dir && word@ == "跳过"@,
                },
                None => self.is_dir && self.status is None,
            },
    {
        match self.status {
            Some(st) => Some(status_word(Some(st))),
            None => if self.is_dir {
                None
            } else {
                Some("跳过")
            },
        }
    }

    /// What a double click on the name asks for.
    pub fn double_click(&self) -> (r: PreviewAction)
        ensures
            r == (if self.is_dir {
                PreviewAction::Open(self.path)
            } else {
                PreviewAction::Reveal(self.path)
            }),
    {
        if self.is_dir {
            PreviewAction::Open(self.path)
        } else {
            PreviewAction::Reveal(self.path)
        }
    }
}

/// What the rows depend on after a click on the triangle of `path`, which is the root or not, and
/// is open or not.
pub open spec fn toggled(scene: Scene, path: usize, is_root: bool, is_open: bool) -> Scene {
    Scene {
        expanded: if is_open {
            scene.expanded.remove(path)
        } else {
            scene.expanded.insert(path)
        },
        folded_root: if !is_root {
            scene.folded_root
        } else if is_open {
            Some(path)
        } else {
            None
        },
        ..scene
    }
}

/// A click on the triangle of a directory, the root among them, closes it where it was open and
/// opens it where it was closed, a second click undoes the first, and neither changes whether
/// another directory of the tree is open.
pub proof fn triangle_switches_directory(node: TreeNode, is_root: bool, scene: Scene)
    requires
        node.is_dir,
    ensures
        ({
            let is_open = opened(node, is_root, scene);
            let once = toggled(scene, node.path, is_root, is_open);
            let twice = toggled(once, node.path, is_root, !is_open);
            &&& opened(node, is_root, once) == !is_open
            &&& opened(node, is_root, twice) == is_open
            &&& forall|other: TreeNode, other_is_root: bool|
                other.path != node.path && !(is_root && other_is_root) ==> {
                    &&& #[trigger] opened(other, other_is_root, once) == opened(
                        other,
                        other_is_root,
                        scene,
                    )
                    &&& opened(other, other_is_root, twice) == opened(other, other_is_root, scene)
                }
        }),
{
}

/// A closed directory is shown by its own row alone.
pub proof fn closed_directory_hides_what_it_holds(
    node: TreeNode,
    is_root: bool,
    depth: nat,
    scene: Scene,
)
    requires
        passes(node, scene),
        !opened(node, is_root, scene),
    ensures
        shown(node, is_root, depth, scene) == seq![node_row(node, depth, false, scene)],
{
    assert(shown(node, is_root, depth, scene) =~= seq![node_row(node, depth, false, scene)]);
}

/// Whether the parent relation agrees with the tree: what a node holds lies in it, and only
/// directories hold something.
pub open spec fn placed(node: TreeNode, parents: Seq<Option<usize>>) -> bool
    decreases node,
{
    forest_placed(node.children@, node, parents)
}

/// Whether the trees lie in `holder` and agree with the parent relation themselves.
pub open spec fn forest_placed(
    trees: Seq<TreeNode>,
    holder: TreeNode,
    parents: Seq<Option<usize>>,
) -> bool
    decreases trees,
{
    trees.len() == 0 || {
        let last = trees.last();
        &&& holder.is_dir
        &&& crate::paths::parent_in(parents, last.path) == Some(holder.path)
        &&& placed(last, parents)
        &&& forest_placed(trees.drop_last(), holder, parents)
    }
}

/// A node is above everything in it.
proof fn root_is_above(node: TreeNode, parents: Seq<Option<usize>>, i: int)
    requires
        crate::paths::parents_first(parents),
        placed(node, parents),
        0 <= i < crate::tree::nodes_of(node).len(),
    ensures
        crate::paths::at_or_above(parents, node.path, crate::tree::nodes_of(node)[i].path),
    decreases node,
{
    if i > 0 {
        holder_is_above(node.children@, node, parents, i - 1);
    }
}

/// A node is above everything in the trees that lie in it.
proof fn holder_is_above(
    trees: Seq<TreeNode>,
    holder: TreeNode,
    parents: Seq<Option<usize>>,
    i: int,
)
    requires
        crate::paths::parents_first(parents),
        forest_placed(trees, holder, parents),
        0 <= i < crate::tree::forest_nodes(trees).len(),
    ensures
        crate::paths::at_or_above(
            parents,
            holder.path,
            crate::tree::forest_nodes(trees)[i].path,
        ),
    decreases trees,
{
    let first = crate::tree::forest_nodes(trees.drop_last());
    if i < first.len() {
        holder_is_above(trees.drop_last(), holder, parents, i);
    } else {
        let last = trees.last();
        root_is_above(last, parents, i - first.len());
        assert(crate::paths::at_or_above(parents, holder.path, holder.path));
        assert(crate::paths::at_or_above(parents, holder.path, last.path));
        crate::paths::above_is_transitive(
            parents,
            holder.path,
            last.path,
            crate::tree::forest_nodes(trees)[i].path,
        );
    }
}

/// Whether one of the rows shows the node.
pub open spec fn row_shows(rows: Seq<TreeRow>, node: TreeNode) -> bool {
    exists|j: int|
        0 <= j < rows.len() && (#[trigger] rows[j]).path == node.path && rows[j].name == node.name
            && rows[j].is_dir == node.is_dir
}

/// What one of two runs of rows shows, both together show.
proof fn either_shows(a: Seq<TreeRow>, b: Seq<TreeRow>, node: TreeNode)
    requires
        row_shows(a, node) || row_shows(b, node),
    ensures
        row_shows(a + b, node),
{
    if row_shows(a, node) {
        let j = choose|j: int|
            0 <= j < a.len() && (#[trigger] a[j]).path == node.path && a[j].name == node.name
                && a[j].is_dir == node.is_dir;
        assert((a + b)[j] == a[j]);
    } else {
        let j = choose|j: int|
            0 <= j < b.len() && (#[trigger] b[j]).path == node.path && b[j].name == node.name
                && b[j].is_dir == node.is_dir;
        assert((a + b)[a.len() + j] == b[j]);
    }
}

/// Whether the directories among `nodes` that lead to a hit are open.
pub open spec fn hits_open(nodes: Seq<TreeNode>, scene: Scene) -> bool {
    forall|i: int|
        0 <= i < nodes.len() && (#[trigger] nodes[i]).is_dir && scene.hits.contains(nodes[i].path)
            ==> scene.expanded.contains(nodes[i].path)
}

/// With a filter set and the directories on the way opened, every node that has the wanted status
/// is shown, however deep it lies.
pub proof fn filter_shows_every_match(
    node: TreeNode,
    is_root: bool,
    depth: nat,
    scene: Scene,
    parents: Seq<Option<usize>>,
    st: PreviewStatus,
    i: int,
)
    requires
        crate::paths::parents_first(parents),
        placed(node, parents),
        scene.filter == Some(st),
        scene.hits == crate::filter::hits_of(scene.rows, parents, st),
        hits_open(crate::tree::nodes_of(node), scene),
        0 <= i < crate::tree::nodes_of(node).len(),
        crate::filter::matches_status(scene.rows, crate::tree::nodes_of(node)[i].path, st),
    ensures
        row_shows(shown(node, is_root, depth, scene), crate::tree::nodes_of(node)[i]),
    decreases node,
{
    let nodes = crate::tree::nodes_of(node);
    let rows = shown(node, is_root, depth, scene);
    if i == 0 {
        assert(rows[0].path == node.path);
    } else {
        root_is_above(node, parents, i);
        assert(scene.hits.contains(node.path));
        assert(nodes[0] == node);
        let inner = crate::tree::forest_nodes(node.children@);
        assert(inner[i - 1] == nodes[i]);
        assert(node.children@.len() > 0);
        assert(hits_open(inner, scene)) by {
            assert forall|k: int|
                0 <= k < inner.len() && (#[trigger] inner[k]).is_dir && scene.hits.contains(
                    inner[k].path,
                ) implies scene.expanded.contains(inner[k].path) by {
                assert(nodes[k + 1] == inner[k]);
            }
        }
        filter_shows_match_below(node.children@, node, depth + 1, scene, parents, st, i - 1);
        either_shows(
            seq![node_row(node, depth, true, scene)],
            shown_forest(node.children@, depth + 1, scene),
            nodes[i],
        );
    }
}

/// The same of what a directory holds.
proof fn filter_shows_match_below(
    trees: Seq<TreeNode>,
    holder: TreeNode,
    depth: nat,
    scene: Scene,
    parents: Seq<Option<usize>>,
    st: PreviewStatus,
    i: int,
)
    requires
        crate::paths::parents_first(parents),
        forest_placed(trees, holder, parents),
        scene.filter == Some(st),
        scene.hits == crate::filter::hits_of(scene.rows, parents, st),
        hits_open(crate::tree::forest_nodes(trees), scene),
        0 <= i < crate::tree::forest_nodes(trees).len(),
        crate::filter::matches_status(scene.rows, crate::tree::forest_nodes(trees)[i].path, st),
    ensures
        row_shows(shown_forest(trees, depth, scene), crate::tree::forest_nodes(trees)[i]),
    decreases trees,
{
    let nodes = crate::tree::forest_nodes(trees);
    let first = crate::tree::forest_nodes(trees.drop_last());
    let last = crate::tree::nodes_of(trees.last());
    if i < first.len() {
        assert(hits_open(first, scene)) by {
            assert forall|k: int|
                0 <= k < first.len() && (#[trigger] first[k]).is_dir && scene.hits.contains(
                    first[k].path,
                ) implies scene.expanded.contains(first[k].path) by {
                assert(nodes[k] == first[k]);
            }
        }
        filter_shows_match_below(trees.drop_last(), holder, depth, scene, parents, st, i);
    } else {
        assert(hits_open(last, scene)) by {
            assert forall|k: int|
                0 <= k < last.len() && (#[trigger] last[k]).is_dir && scene.hits.contains(
                    last[k].path,
                ) implies scene.expanded.contains(last[k].path) by {
                assert(nodes[first.len() + k] == last[k]);
            }
        }
        filter_shows_every_match(
            trees.last(),
            false,
            depth,
            scene,
            parents,
            st,
            i - first.len(),
        );
    }
    either_shows(
        shown_forest(trees.drop_last(), depth, scene),
        shown(trees.last(), false, depth, scene),
        nodes[i],
    );
}

/// Whether a row has business under the filter `st`: a file has that status itself, a directory
/// has it or leads to something that has.
pub open spec fn wanted(row: TreeRow, scene: Scene, st: PreviewStatus) -> bool {
    row.status == Some(st) || (row.is_dir && scene.hits.contains(row.path))
}

/// With a filter set, no other rows are shown than those that have the wanted status and the
/// directories that lead to them.
pub proof fn filter_shows_nothing_else(
    node: TreeNode,
    is_root: bool,
    depth: nat,
    scene: Scene,
    st: PreviewStatus,
)
    requires
        scene.filter == Some(st),
    ensures
        forall|j: int|
            0 <= j < shown(node, is_root, depth, scene).len() ==> wanted(
                #[trigger] shown(node, is_root, depth, scene)[j],
                scene,
                st,
            ),
    decreases node,
{
    if passes(node, scene) && opened(node, is_root, scene) {
        filter_shows_nothing_else_below(node.children@, depth + 1, scene, st);
        let below = shown_forest(node.children@, depth + 1, scene);
        let rows = shown(node, is_root, depth, scene);
        assert forall|j: int| 0 <= j < rows.len() implies wanted(#[trigger] rows[j], scene, st) by {
            if j > 0 {
                assert(rows[j] == below[j - 1]);
            }
        }
    }
}

/// The same of what a directory holds.
proof fn filter_shows_nothing_else_below(
    trees: Seq<TreeNode>,
    depth: nat,
    scene: Scene,
    st: PreviewStatus,
)
    requires
        scene.filter == Some(st),
    ensures
        forall|j: int|
            0 <= j < shown_forest(trees, depth, scene).len() ==> wanted(
                #[trigger] shown_forest(trees, depth, scene)[j],
                scene,
                st,
            ),
    decreases trees,
{
    if trees.len() > 0 {
        filter_shows_nothing_else_below(trees.drop_last(), depth, scene, st);
        filter_shows_nothing_else(trees.last(), false, depth, scene, st);
        let a = shown_forest(trees.drop_last(), depth, scene);
        let b = shown(trees.last(), false, depth, scene);
        assert forall|j: int| 0 <= j < (a + b).len() implies wanted(
            #[trigger] (a + b)[j],
            scene,
            st,
        ) by {
            if j < a.len() {
                assert((a + b)[j] == a[j]);
            } else {
                assert((a + b)[j] == b[j - a.len()]);
            }
        }
    }
}

/// Whether `rows` shows `nodes`, one row for each, in their order.
pub open spec fn shows_all(rows: Seq<TreeRow>, nodes: Seq<TreeNode>) -> bool {
    &&& rows.len() == nodes.len()
    &&& forall|i: int|
        #![trigger rows[i]]
        #![trigger nodes[i]]
        0 <= i < rows.len() ==> rows[i].path == nodes[i].path && rows[i].name == nodes[i].name
            && rows[i].is_dir == nodes[i].is_dir
}

/// Without a filter and with every directory open, each node is shown once, in the order of the
/// tree.
pub proof fn open_tree_shows_everything(
    node: TreeNode,
    is_root: bool,
    depth: nat,
    scene: Scene,
    parents: Seq<Option<usize>>,
)
    requires
        placed(node, parents),
        scene.filter is None,
        forall|i: int|
            0 <= i < crate::tree::nodes_of(node).len() ==> scene.expanded.contains(
                (#[trigger] crate::tree::nodes_of(node)[i]).path,
            ),
    ensures
        shows_all(shown(node, is_root, depth, scene), crate::tree::nodes_of(node)),
    decreases node,
{
    let nodes = crate::tree::nodes_of(node);
    let inner = crate::tree::forest_nodes(node.children@);
    assert(nodes[0] == node);
    assert forall|i: int| 0 <= i < inner.len() implies scene.expanded.contains(
        (#[trigger] inner[i]).path,
    ) by {
        assert(nodes[i + 1] == inner[i]);
    }
    open_forest_shows_everything(node.children@, node, depth + 1, scene, parents);
    if !node.is_dir {
        assert(node.children@.len() == 0);
        assert(nodes =~= seq![node]);
    }
}

/// The same of what a directory holds.
proof fn open_forest_shows_everything(
    trees: Seq<TreeNode>,
    holder: TreeNode,
    depth: nat,
    scene: Scene,
    parents: Seq<Option<usize>>,
)
    requires
        forest_placed(trees, holder, parents),
        scene.filter is None,
        forall|i: int|
            0 <= i < crate::tree::forest_nodes(trees).len() ==> scene.expanded.contains(
                (#[trigger] crate::tree::forest_nodes(trees)[i]).path,
            ),
    ensures
        shows_all(shown_forest(trees, depth, scene), crate::tree::forest_nodes(trees)),
    decreases trees,
{
    if trees.len() > 0 {
        let nodes = crate::tree::forest_nodes(trees);
        let first = crate::tree::forest_nodes(trees.drop_last());
        let last = crate::tree::nodes_of(trees.last());
        assert forall|i: int| 0 <= i < first.len() implies scene.expanded.contains(
            (#[trigger] first[i]).path,
        ) by {
            assert(nodes[i] == first[i]);
        }
        assert forall|i: int| 0 <= i < last.len() implies scene.expanded.contains(
            (#[trigger] last[i]).path,
        ) by {
            assert(nodes[first.len() + i] == last[i]);
        }
        open_forest_shows_everything(trees.drop_last(), holder, depth, scene, parents);
        open_tree_shows_everything(trees.last(), false, depth, scene, parents);
    }
}

/// Whether `row` shows one of the nodes.
pub open spec fn shows_one_of(row: TreeRow, nodes: Seq<TreeNode>) -> bool {
    exists|i: int|
        0 <= i < nodes.len() && row.path == (#[trigger] nodes[i]).path && row.name == nodes[i].name
            && row.is_dir == nodes[i].is_dir
}

/// Every row shows a node of the tree.
pub proof fn rows_come_from_nodes(
    node: TreeNode,
    is_root: bool,
    depth: nat,
    scene: Scene,
    j: int,
)
    requires
        0 <= j < shown(node, is_root, depth, scene).len(),
    ensures
        shows_one_of(shown(node, is_root, depth, scene)[j], crate::tree::nodes_of(node)),
    decreases node,
{
    let nodes = crate::tree::nodes_of(node);
    assert(nodes[0] == node);
    if j > 0 {
        rows_come_from_forest(node.children@, depth + 1, scene, j - 1);
        let inner = crate::tree::forest_nodes(node.children@);
        let row = shown(node, is_root, depth, scene)[j];
        let i = choose|i: int|
            0 <= i < inner.len() && row.path == (#[trigger] inner[i]).path && row.name
                == inner[i].name && row.is_dir == inner[i].is_dir;
        assert(nodes[i + 1] == inner[i]);
    }
}

/// The same of what a directory holds.
proof fn rows_come_from_forest(trees: Seq<TreeNode>, depth: nat, scene: Scene, j: int)
    requires
        0 <= j < shown_forest(trees, depth, scene).len(),
    ensures
        shows_one_of(shown_forest(trees, depth, scene)[j], crate::tree::forest_nodes(trees)),
    decreases trees,
{
    let a = shown_forest(trees.drop_last(), depth, scene);
    let first = crate::tree::forest_nodes(trees.drop_last());
    let last = crate::tree::nodes_of(trees.last());
    let nodes = crate::tree::forest_nodes(trees);
    let row = shown_forest(trees, depth, scene)[j];
    if j < a.len() {
        rows_come_from_forest(trees.drop_last(), depth, scene, j);
        let i = choose|i: int|
            0 <= i < first.len() && row.path == (#[trigger] first[i]).path && row.name
                == first[i].name && row.is_dir == first[i].is_dir;
        assert(nodes[i] == first[i]);
    } else {
        rows_come_from_nodes(trees.last(), false, depth, scene, j - a.len());
        let i = choose|i: int|
            0 <= i < last.len() && row.path == (#[trigger] last[i]).path && row.name
                == last[i].name && row.is_dir == last[i].is_dir;
        assert(nodes[first.len() + i] == last[i]);
    }
}

/// Whether a row shows the verdict on its path, whatever the verdict is: status, new name, and the
/// remark unless it is empty. Without a verdict it shows none of them.
pub open spec fn shows_verdict(row: TreeRow, rows: Map<usize, PreviewRow>) -> bool {
    if rows.dom().contains(row.path) {
        let verdict = rows[row.path];
        &&& row.status == Some(verdict.status)
        &&& row.new_name == Some(verdict.new_name)
        &&& verdict.note@.len() > 0 ==> row.note == Some(verdict.note)
        &&& verdict.note@.len() == 0 ==> row.note is None
    } else {
        row.status is None && row.new_name is None && row.note is None
    }
}

/// Every row shows the verdict on its own path, and no row shows another.
pub proof fn rows_show_their_verdicts(node: TreeNode, is_root: bool, depth: nat, scene: Scene)
    ensures
        forall|j: int|
            0 <= j < shown(node, is_root, depth, scene).len() ==> shows_verdict(
                #[trigger] shown(node, is_root, depth, scene)[j],
                scene.rows,
            ),
    decreases node,
{
    if passes(node, scene) {
        verdicts_below(node.children@, depth + 1, scene);
        let below = shown_forest(node.children@, depth + 1, scene);
        let rows = shown(node, is_root, depth, scene);
        assert forall|j: int| 0 <= j < rows.len() implies shows_verdict(
            #[trigger] rows[j],
            scene.rows,
        ) by {
            if j > 0 {
                assert(rows[j] == below[j - 1]);
            }
        }
    }
}

/// The same of what a directory holds.
proof fn verdicts_below(trees: Seq<TreeNode>, depth: nat, scene: Scene)
    ensures
        forall|j: int|
            0 <= j < shown_forest(trees, depth, scene).len() ==> shows_verdict(
                #[trigger] shown_forest(trees, depth, scene)[j],
                scene.rows,
            ),
    decreases trees,
{
    if trees.len() > 0 {
        verdicts_below(trees.drop_last(), depth, scene);
        rows_show_their_verdicts(trees.last(), false, depth, scene);
        let a = shown_forest(trees.drop_last(), depth, scene);
        let b = shown(trees.last(), false, depth, scene);
        assert forall|j: int| 0 <= j < (a + b).len() implies shows_verdict(
            #[trigger] (a + b)[j],
            scene.rows,
        ) by {
            if j < a.len() {
                assert((a + b)[j] == a[j]);
            } else {
                assert((a + b)[j] == b[j - a.len()]);
            }
        }
    }
}

/// The triangle of a row points down exactly where the directory was opened, or is the root and was
/// not closed; files are never open.
pub proof fn rows_are_open_as_chosen(node: TreeNode, is_root: bool, depth: nat, scene: Scene)
    ensures
        forall|j: int|
            #![trigger shown(node, is_root, depth, scene)[j]]
            0 <= j < shown(node, is_root, depth, scene).len() ==> {
                let row = shown(node, is_root, depth, scene)[j];
                row.is_open <==> row.is_dir && (scene.expanded.contains(row.path) || (j == 0
                    && is_root && scene.folded_root != Some(row.path)))
            },
    decreases node,
{
    if passes(node, scene) {
        open_below(node.children@, depth + 1, scene);
        let below = shown_forest(node.children@, depth + 1, scene);
        let rows = shown(node, is_root, depth, scene);
        assert forall|j: int| #![trigger rows[j]] 0 <= j < rows.len() implies {
            rows[j].is_open <==> rows[j].is_dir && (scene.expanded.contains(rows[j].path) || (j
                == 0 && is_root && scene.folded_root != Some(rows[j].path)))
        } by {
            if j > 0 {
                assert(rows[j] == below[j - 1]);
            }
        }
    }
}

/// The same of what a directory holds, where nothing is the root.
proof fn open_below(trees: Seq<TreeNode>, depth: nat, scene: Scene)
    ensures
        forall|j: int|
            0 <= j < shown_forest(trees, depth, scene).len() ==> ((
            #[trigger] shown_forest(trees, depth, scene)[j]).is_open <==> shown_forest(
                trees,
                depth,
                scene,
            )[j].is_dir && scene.expanded.contains(shown_forest(trees, depth, scene)[j].path)),
    decreases trees,
{
    if trees.len() > 0 {
        open_below(trees.drop_last(), depth, scene);
        rows_are_open_as_chosen(trees.last(), false, depth, scene);
        let a = shown_forest(trees.drop_last(), depth, scene);
        let b = shown(trees.last(), false, depth, scene);
        assert forall|j: int| 0 <= j < (a + b).len() implies ((#[trigger] (a + b)[j]).is_open <==> (
        a + b)[j].is_dir && scene.expanded.contains((a + b)[j].path)) by {
            if j < a.len() {
                assert((a + b)[j] == a[j]);
            } else {
                assert((a + b)[j] == b[j - a.len()]);
            }
        }
    }
}

/// Whether row `i` is the directory that holds row `j`: it stands above it, is open, is indented by
/// one level less, and no row between is indented as little.
pub open spec fn row_holds(
    rows: Seq<TreeRow>,
    i: int,
    j: int,
    parents: Seq<Option<usize>>,
) -> bool {
    &&& 0 <= i < j < rows.len()
    &&& rows[i].is_dir && rows[i].is_open
    &&& rows[j].depth == rows[i].depth + 1
    &&& crate::paths::parent_in(parents, rows[j].path) == Some(rows[i].path)
    &&& forall|k: int| i < k < j ==> (#[trigger] rows[k]).depth > rows[i].depth
}

/// Whether some row is the directory that holds row `j`.
pub open spec fn row_is_held(rows: Seq<TreeRow>, j: int, parents: Seq<Option<usize>>) -> bool {
    exists|i: int| #[trigger] row_holds(rows, i, j, parents)
}

/// The first row is not indented further than asked for, and every other row stands below the row
/// of the directory that holds it, indented by one level more.
pub proof fn rows_are_indented_below_their_directory(
    node: TreeNode,
    is_root: bool,
    depth: nat,
    scene: Scene,
    parents: Seq<Option<usize>>,
)
    requires
        placed(node, parents),
        depth + crate::tree::levels(node) <= usize::MAX,
    ensures
        shown(node, is_root, depth, scene).len() > 0 ==> shown(node, is_root, depth, scene)[0].depth
            == depth && shown(node, is_root, depth, scene)[0].path == node.path,
        forall|j: int|
            0 < j < shown(node, is_root, depth, scene).len() ==> (#[trigger] shown(
                node,
                is_root,
                depth,
                scene,
            )[j]).depth > depth,
        forall|j: int|
            0 < j < shown(node, is_root, depth, scene).len() ==> #[trigger] row_is_held(
                shown(node, is_root, depth, scene),
                j,
                parents,
            ),
    decreases node,
{
    let rows = shown(node, is_root, depth, scene);
    if passes(node, scene) && opened(node, is_root, scene) {
        let below = shown_forest(node.children@, depth + 1, scene);
        indented_below(node.children@, node, depth + 1, scene, parents);
        assert forall|j: int| 0 < j < rows.len() implies (#[trigger] rows[j]).depth > depth by {
            assert(rows[j] == below[j - 1]);
        }
        assert forall|j: int| 0 < j < rows.len() implies #[trigger] row_is_held(
            rows,
            j,
            parents,
        ) by {
            assert(rows[j] == below[j - 1]);
            assert(held_or_on_top(below, j - 1, parents, node.path, depth + 1));
            if row_is_held(below, j - 1, parents) {
                let i = choose|i: int| #[trigger] row_holds(below, i, j - 1, parents);
                assert(rows[i + 1] == below[i]);
                assert forall|k: int| i + 1 < k < j implies (#[trigger] rows[k]).depth > rows[i
                    + 1].depth by {
                    assert(rows[k] == below[k - 1]);
                }
                assert(row_holds(rows, i + 1, j, parents));
            } else {
                assert(row_holds(rows, 0, j, parents));
            }
        }
    }
}

/// Whether row `j` is held by a row, or lies in the directory `holder` at the level `depth`.
spec fn held_or_on_top(
    rows: Seq<TreeRow>,
    j: int,
    parents: Seq<Option<usize>>,
    holder: usize,
    depth: nat,
) -> bool {
    row_is_held(rows, j, parents) || (rows[j].depth == depth && crate::paths::parent_in(
        parents,
        rows[j].path,
    ) == Some(holder))
}

/// The same of what a directory holds.
proof fn indented_below(
    trees: Seq<TreeNode>,
    holder: TreeNode,
    depth: nat,
    scene: Scene,
    parents: Seq<Option<usize>>,
)
    requires
        forest_placed(trees, holder, parents),
        depth + crate::tree::forest_levels(trees) <= usize::MAX,
    ensures
        forall|j: int|
            0 <= j < shown_forest(trees, depth, scene).len() ==> (#[trigger] shown_forest(
                trees,
                depth,
                scene,
            )[j]).depth >= depth,
        forall|j: int|
            0 <= j < shown_forest(trees, depth, scene).len() ==> #[trigger] held_or_on_top(
                shown_forest(trees, depth, scene),
                j,
                parents,
                holder.path,
                depth,
            ),
    decreases trees,
{
    if trees.len() > 0 {
        let last = trees.last();
        let a = shown_forest(trees.drop_last(), depth, scene);
        let b = shown(last, false, depth, scene);
        let rows = shown_forest(trees, depth, scene);
        indented_below(trees.drop_last(), holder, depth, scene, parents);
        rows_are_indented_below_their_directory(last, false, depth, scene, parents);
        assert(rows == a + b);
        assert forall|j: int| 0 <= j < rows.len() implies (#[trigger] rows[j]).depth >= depth by {
            if j < a.len() {
                assert(rows[j] == a[j]);
            } else {
                assert(rows[j] == b[j - a.len()]);
            }
        }
        assert forall|j: int| 0 <= j < rows.len() implies #[trigger] held_or_on_top(
            rows,
            j,
            parents,
            holder.path,
            depth,
        ) by {
            let n = a.len() as int;
            if j < n {
                assert(rows[j] == a[j]);
                assert(held_or_on_top(a, j, parents, holder.path, depth));
                if row_is_held(a, j, parents) {
                    let i = choose|i: int| #[trigger] row_holds(a, i, j, parents);
                    assert(rows[i] == a[i]);
                    assert forall|k: int| i < k < j implies (#[trigger] rows[k]).depth
                        > rows[i].depth by {
                        assert(rows[k] == a[k]);
                    }
                    assert(row_holds(rows, i, j, parents));
                }
            } else {
                assert(rows[j] == b[j - n]);
                if j > n {
                    assert(row_is_held(b, j - n, parents));
                    let i = choose|i: int| #[trigger] row_holds(b, i, j - n, parents);
                    assert(rows[n + i] == b[i]);
                    assert forall|k: int| n + i < k < j implies (#[trigger] rows[k]).depth > rows[n
                        + i].depth by {
                        assert(rows[k] == b[k - n]);
                    }
                    assert(row_holds(rows, n + i, j, parents));
                }
            }
        }
    }
}

/// Whether no two of the nodes have the same path.
pub open spec fn paths_differ(nodes: Seq<TreeNode>) -> bool {
    forall|i: int, j: int|
        0 <= i < j < nodes.len() ==> (#[trigger] nodes[i]).path != (#[trigger] nodes[j]).path
}

/// Whether the filter leaves a node in the table: without a filter every node, otherwise those whose
/// verdict has the wanted status and the directories among the hits.
pub open spec fn lets_through(node: TreeNode, scene: Scene) -> bool {
    ||| scene.filter is None
    ||| scene.rows.dom().contains(node.path) && Some(scene.rows[node.path].status) == scene.filter
    ||| node.is_dir && scene.hits.contains(node.path)
}

/// Whether a directory was opened, or is the root and was not closed.
pub open spec fn stands_open(node: TreeNode, is_root: bool, scene: Scene) -> bool {
    &&& node.is_dir
    &&& scene.expanded.contains(node.path) || (is_root && scene.folded_root != Some(node.path))
}

/// What two runs of rows show together, one of them shows.
proof fn one_shows(a: Seq<TreeRow>, b: Seq<TreeRow>, node: TreeNode)
    ensures
        row_shows(a + b, node) <==> row_shows(a, node) || row_shows(b, node),
{
    if row_shows(a, node) || row_shows(b, node) {
        either_shows(a, b, node);
    }
    if row_shows(a + b, node) {
        let all = a + b;
        let j = choose|j: int|
            0 <= j < all.len() && (#[trigger] all[j]).path == node.path && all[j].name == node.name
                && all[j].is_dir == node.is_dir;
        if j < a.len() {
            assert(a[j] == all[j]);
        } else {
            assert(b[j - a.len()] == all[j]);
        }
    }
}

/// The rows of a tree show no node whose path is not in the tree.
proof fn no_row_for_strangers(node: TreeNode, is_root: bool, depth: nat, scene: Scene, x: TreeNode)
    requires
        !crate::tree::path_among(crate::tree::nodes_of(node), x.path),
    ensures
        !row_shows(shown(node, is_root, depth, scene), x),
{
    let rows = shown(node, is_root, depth, scene);
    if row_shows(rows, x) {
        let j = choose|j: int|
            0 <= j < rows.len() && (#[trigger] rows[j]).path == x.path && rows[j].name == x.name
                && rows[j].is_dir == x.is_dir;
        rows_come_from_nodes(node, is_root, depth, scene, j);
    }
}

/// The same of what a directory holds.
proof fn no_row_for_strangers_below(trees: Seq<TreeNode>, depth: nat, scene: Scene, x: TreeNode)
    requires
        !crate::tree::path_among(crate::tree::forest_nodes(trees), x.path),
    ensures
        !row_shows(shown_forest(trees, depth, scene), x),
{
    let rows = shown_forest(trees, depth, scene);
    if row_shows(rows, x) {
        let j = choose|j: int|
            0 <= j < rows.len() && (#[trigger] rows[j]).path == x.path && rows[j].name == x.name
                && rows[j].is_dir == x.is_dir;
        rows_come_from_forest(trees, depth, scene, j);
    }
}

/// A path in one of two runs of nodes is not in the other.
proof fn paths_keep_apart(a: Seq<TreeNode>, b: Seq<TreeNode>, i: int)
    requires
        paths_differ(a + b),
        0 <= i < (a + b).len(),
    ensures
        paths_differ(a),
        paths_differ(b),
        i < a.len() ==> !crate::tree::path_among(b, (a + b)[i].path),
        i >= a.len() ==> !crate::tree::path_among(a, (a + b)[i].path),
{
    let all = a + b;
    assert forall|k: int, l: int| 0 <= k < l < a.len() implies (#[trigger] a[k]).path != (
    #[trigger] a[l]).path by {
        assert(all[k] == a[k] && all[l] == a[l]);
    }
    assert forall|k: int, l: int| 0 <= k < l < b.len() implies (#[trigger] b[k]).path != (
    #[trigger] b[l]).path by {
        assert(all[a.len() + k] == b[k] && all[a.len() + l] == b[l]);
    }
    let p = all[i].path;
    if i < a.len() && crate::tree::path_among(b, p) {
        let k = choose|k: int| 0 <= k < b.len() && (#[trigger] b[k]).path == p;
        assert(all[a.len() + k] == b[k]);
    }
    if i >= a.len() && crate::tree::path_among(a, p) {
        let k = choose|k: int| 0 <= k < a.len() && (#[trigger] a[k]).path == p;
        assert(all[k] == a[k]);
    }
}

/// What a node of a tree holds is a node of the tree; gives its place.
proof fn place_of_child(node: TreeNode, h: int, c: int) -> (m: int)
    requires
        0 <= h < crate::tree::nodes_of(node).len(),
        0 <= c < crate::tree::nodes_of(node)[h].children@.len(),
    ensures
        h < m < crate::tree::nodes_of(node).len(),
        crate::tree::nodes_of(node)[m] == crate::tree::nodes_of(node)[h].children@[c],
    decreases node,
{
    let nodes = crate::tree::nodes_of(node);
    let inner = crate::tree::forest_nodes(node.children@);
    if h == 0 {
        assert(nodes[0] == node);
        let m = place_of_root(node.children@, c);
        assert(nodes[m + 1] == inner[m]);
        m + 1
    } else {
        assert(nodes[h] == inner[h - 1]);
        let m = place_of_child_below(node.children@, h - 1, c);
        assert(nodes[m + 1] == inner[m]);
        m + 1
    }
}

/// The same of several trees.
proof fn place_of_child_below(trees: Seq<TreeNode>, h: int, c: int) -> (m: int)
    requires
        0 <= h < crate::tree::forest_nodes(trees).len(),
        0 <= c < crate::tree::forest_nodes(trees)[h].children@.len(),
    ensures
        h < m < crate::tree::forest_nodes(trees).len(),
        crate::tree::forest_nodes(trees)[m] == crate::tree::forest_nodes(trees)[h].children@[c],
        h < crate::tree::forest_nodes(trees.drop_last()).len() ==> m < crate::tree::forest_nodes(
            trees.drop_last(),
        ).len(),
    decreases trees,
{
    let nodes = crate::tree::forest_nodes(trees);
    let first = crate::tree::forest_nodes(trees.drop_last());
    let last = crate::tree::nodes_of(trees.last());
    if h < first.len() {
        assert(nodes[h] == first[h]);
        let m = place_of_child_below(trees.drop_last(), h, c);
        assert(nodes[m] == first[m]);
        m
    } else {
        assert(nodes[h] == last[h - first.len()]);
        let m = place_of_child(trees.last(), h - first.len(), c);
        assert(nodes[first.len() + m] == last[m]);
        first.len() + m
    }
}

/// Each of several trees is among their nodes; gives its place.
proof fn place_of_root(trees: Seq<TreeNode>, c: int) -> (m: int)
    requires
        0 <= c < trees.len(),
    ensures
        0 <= m < crate::tree::forest_nodes(trees).len(),
        crate::tree::forest_nodes(trees)[m] == trees[c],
        c < trees.len() - 1 ==> m < crate::tree::forest_nodes(trees.drop_last()).len(),
        c == trees.len() - 1 ==> m == crate::tree::forest_nodes(trees.drop_last()).len(),
    decreases trees.len(),
{
    let nodes = crate::tree::forest_nodes(trees);
    let first = crate::tree::forest_nodes(trees.drop_last());
    if c == trees.len() - 1 {
        let last = crate::tree::nodes_of(trees.last());
        assert(last[0] == trees.last());
        assert(nodes[first.len() as int] == last[0]);
        first.len() as int
    } else {
        let m = place_of_root(trees.drop_last(), c);
        assert(nodes[m] == first[m]);
        m
    }
}

/// A node that lies directly in the directory on show is shown exactly where the filter lets it
/// through.
proof fn shown_on_top(trees: Seq<TreeNode>, depth: nat, scene: Scene, c: int)
    requires
        paths_differ(crate::tree::forest_nodes(trees)),
        0 <= c < trees.len(),
    ensures
        row_shows(shown_forest(trees, depth, scene), trees[c]) <==> lets_through(trees[c], scene),
    decreases trees.len(),
{
    let rest = trees.drop_last();
    let first = crate::tree::forest_nodes(rest);
    let last = crate::tree::nodes_of(trees.last());
    let a = shown_forest(rest, depth, scene);
    let b = shown(trees.last(), false, depth, scene);
    let m = place_of_root(trees, c);
    paths_keep_apart(first, last, m);
    one_shows(a, b, trees[c]);
    if c == trees.len() - 1 {
        no_row_for_strangers_below(rest, depth, scene, trees[c]);
        if lets_through(trees[c], scene) {
            assert(passes(trees[c], scene));
            assert(b[0].path == trees[c].path);
        } else {
            assert(!passes(trees[c], scene));
        }
    } else {
        no_row_for_strangers(trees.last(), false, depth, scene, trees[c]);
        shown_on_top(rest, depth, scene, c);
        assert(rest[c] == trees[c]);
    }
}

/// A node is shown exactly where the directory that holds it is shown and stands open and the filter
/// lets the node through.
pub proof fn shown_where_its_directory_is_open(
    node: TreeNode,
    is_root: bool,
    depth: nat,
    scene: Scene,
    h: int,
    c: int,
)
    requires
        paths_differ(crate::tree::nodes_of(node)),
        0 <= h < crate::tree::nodes_of(node).len(),
        0 <= c < crate::tree::nodes_of(node)[h].children@.len(),
    ensures
        ({
            let rows = shown(node, is_root, depth, scene);
            let holder = crate::tree::nodes_of(node)[h];
            let child = holder.children@[c];
            row_shows(rows, child) <==> {
                &&& row_shows(rows, holder)
                &&& stands_open(holder, is_root && h == 0, scene)
                &&& lets_through(child, scene)
            }
        }),
    decreases node,
{
    let nodes = crate::tree::nodes_of(node);
    let inner = crate::tree::forest_nodes(node.children@);
    let rows = shown(node, is_root, depth, scene);
    let holder = nodes[h];
    let child = holder.children@[c];
    let m = place_of_child(node, h, c);
    let head = seq![node_row(node, depth, opened(node, is_root, scene), scene)];
    assert(nodes == seq![node] + inner);
    assert(nodes[0] == node);
    assert(nodes[m] == child);
    assert(nodes[0].path != nodes[m].path);
    paths_keep_apart(seq![node], inner, m);
    if passes(node, scene) {
        assert(row_shows(head, node)) by {
            assert(head[0].path == node.path);
        }
        assert(!row_shows(head, child));
        if opened(node, is_root, scene) {
            let below = shown_forest(node.children@, depth + 1, scene);
            assert(rows == head + below);
            one_shows(head, below, child);
            one_shows(head, below, holder);
            if h == 0 {
                shown_on_top(node.children@, depth + 1, scene, c);
            } else {
                assert(holder == inner[h - 1]);
                assert(nodes[0].path != nodes[h].path);
                assert(!row_shows(head, holder));
                shown_below_where_open(node.children@, depth + 1, scene, h - 1, c);
            }
        } else {
            assert(rows =~= head);
            if h > 0 {
                assert(nodes[0].path != nodes[h].path);
                assert(!row_shows(head, holder));
            }
        }
    }
}

/// The same of what a directory holds.
proof fn shown_below_where_open(
    trees: Seq<TreeNode>,
    depth: nat,
    scene: Scene,
    h: int,
    c: int,
)
    requires
        paths_differ(crate::tree::forest_nodes(trees)),
        0 <= h < crate::tree::forest_nodes(trees).len(),
        0 <= c < crate::tree::forest_nodes(trees)[h].children@.len(),
    ensures
        ({
            let rows = shown_forest(trees, depth, scene);
            let holder = crate::tree::forest_nodes(trees)[h];
            let child = holder.children@[c];
            row_shows(rows, child) <==> {
                &&& row_shows(rows, holder)
                &&& stands_open(holder, false, scene)
                &&& lets_through(child, scene)
            }
        }),
    decreases trees,
{
    let nodes = crate::tree::forest_nodes(trees);
    let rest = trees.drop_last();
    let first = crate::tree::forest_nodes(rest);
    let last = crate::tree::nodes_of(trees.last());
    let a = shown_forest(rest, depth, scene);
    let b = shown(trees.last(), false, depth, scene);
    let holder = nodes[h];
    let child = holder.children@[c];
    let m = place_of_child_below(trees, h, c);
    assert(nodes == first + last);
    paths_keep_apart(first, last, h);
    paths_keep_apart(first, last, m);
    one_shows(a, b, holder);
    one_shows(a, b, child);
    if h < first.len() {
        assert(first[h] == holder);
        shown_below_where_open(rest, depth, scene, h, c);
        no_row_for_strangers(trees.last(), false, depth, scene, holder);
        no_row_for_strangers(trees.last(), false, depth, scene, child);
    } else {
        assert(last[h - first.len()] == holder);
        shown_where_its_directory_is_open(
            trees.last(),
            false,
            depth,
            scene,
            h - first.len(),
            c,
        );
        no_row_for_strangers_below(rest, depth, scene, holder);
        no_row_for_strangers_below(rest, depth, scene, child);
    }
}

/// The root is shown exactly where the filter lets it through.
pub proof fn root_is_shown_unless_filtered(
    node: TreeNode,
    is_root: bool,
    depth: nat,
    scene: Scene,
)
    ensures
        row_shows(shown(node, is_root, depth, scene), node) <== lets_through(node, scene),
        shown(node, is_root, depth, scene).len() > 0 <==> lets_through(node, scene),
{
    if lets_through(node, scene) {
        assert(passes(node, scene));
        assert(shown(node, is_root, depth, scene)[0].path == node.path);
    }
}

/// The rows stand in the order of the nodes, and no node has two rows.
pub proof fn rows_stand_in_tree_order(
    node: TreeNode,
    is_root: bool,
    depth: nat,
    scene: Scene,
    j: int,
    l: int,
    i: int,
    k: int,
)
    requires
        paths_differ(crate::tree::nodes_of(node)),
        0 <= j < l < shown(node, is_root, depth, scene).len(),
        0 <= i < crate::tree::nodes_of(node).len(),
        0 <= k < crate::tree::nodes_of(node).len(),
        shown(node, is_root, depth, scene)[j].path == crate::tree::nodes_of(node)[i].path,
        shown(node, is_root, depth, scene)[l].path == crate::tree::nodes_of(node)[k].path,
    ensures
        i < k,
    decreases node,
{
    let nodes = crate::tree::nodes_of(node);
    let inner = crate::tree::forest_nodes(node.children@);
    let rows = shown(node, is_root, depth, scene);
    let below = shown_forest(node.children@, depth + 1, scene);
    assert(nodes == seq![node] + inner);
    paths_keep_apart(seq![node], inner, 0);
    assert(rows[l] == below[l - 1]);
    rows_come_from_forest(node.children@, depth + 1, scene, l - 1);
    let at_l = choose|x: int|
        0 <= x < inner.len() && rows[l].path == (#[trigger] inner[x]).path && rows[l].name
            == inner[x].name && rows[l].is_dir == inner[x].is_dir;
    assert(nodes[at_l + 1] == inner[at_l]);
    assert(nodes[k].path == nodes[at_l + 1].path);
    assert(k == at_l + 1);
    if j == 0 {
        assert(nodes[0].path == nodes[i].path);
        assert(i == 0);
    } else {
        assert(rows[j] == below[j - 1]);
        rows_come_from_forest(node.children@, depth + 1, scene, j - 1);
        let at_j = choose|x: int|
            0 <= x < inner.len() && rows[j].path == (#[trigger] inner[x]).path && rows[j].name
                == inner[x].name && rows[j].is_dir == inner[x].is_dir;
        assert(nodes[at_j + 1] == inner[at_j]);
        assert(i == at_j + 1);
        rows_below_stand_in_order(node.children@, depth + 1, scene, j - 1, l - 1, at_j, at_l);
    }
}

/// The same of what a directory holds.
proof fn rows_below_stand_in_order(
    trees: Seq<TreeNode>,
    depth: nat,
    scene: Scene,
    j: int,
    l: int,
    i: int,
    k: int,
)
    requires
        paths_differ(crate::tree::forest_nodes(trees)),
        0 <= j < l < shown_forest(trees, depth, scene).len(),
        0 <= i < crate::tree::forest_nodes(trees).len(),
        0 <= k < crate::tree::forest_nodes(trees).len(),
        shown_forest(trees, depth, scene)[j].path == crate::tree::forest_nodes(trees)[i].path,
        shown_forest(trees, depth, scene)[l].path == crate::tree::forest_nodes(trees)[k].path,
    ensures
        i < k,
    decreases trees,
{
    let nodes = crate::tree::forest_nodes(trees);
    let rest = trees.drop_last();
    let first = crate::tree::forest_nodes(rest);
    let last = crate::tree::nodes_of(trees.last());
    let a = shown_forest(rest, depth, scene);
    let b = shown(trees.last(), false, depth, scene);
    let rows = shown_forest(trees, depth, scene);
    assert(nodes == first + last);
    assert(rows == a + b);
    let n = first.len() as int;
    let r = a.len() as int;
    paths_keep_apart(first, last, i);
    paths_keep_apart(first, last, k);
    if j < r {
        rows_come_from_forest(rest, depth, scene, j);
        assert(rows[j] == a[j]);
        assert(crate::tree::path_among(first, rows[j].path));
        assert(i < n);
    } else {
        rows_come_from_nodes(trees.last(), false, depth, scene, j - r);
        assert(rows[j] == b[j - r]);
        assert(crate::tree::path_among(last, rows[j].path));
        assert(i >= n);
    }
    if l < r {
        rows_come_from_forest(rest, depth, scene, l);
        assert(rows[l] == a[l]);
        assert(crate::tree::path_among(first, rows[l].path));
        assert(k < n);
    } else {
        rows_come_from_nodes(trees.last(), false, depth, scene, l - r);
        assert(rows[l] == b[l - r]);
        assert(crate::tree::path_among(last, rows[l].path));
        assert(k >= n);
    }
    if l < r {
        rows_below_stand_in_order(rest, depth, scene, j, l, i, k);
    } else if j >= r {
        rows_stand_in_tree_order(
            trees.last(),
            false,
            depth,
            scene,
            j - r,
            l - r,
            i - n,
            k - n,
        );
    }
}

/// Each verdict has a colour of its own, and so have nodes without one: green for what is ready, two
/// reds for conflicts and errors, grays for what keeps its name.
pub proof fn colours_tell_verdicts_apart(a: Option<PreviewStatus>, b: Option<PreviewStatus>)
    ensures
        tint_of(a) == tint_of(b) <==> a == b,
        tint_of(Some(PreviewStatus::Ready)) == Tint::Rgb(0x2e, 0x8b, 0x57),
        tint_of(Some(PreviewStatus::Conflict)) == Tint::Rgb(0xc0, 0x39, 0x2b),
        tint_of(Some(PreviewStatus::Error)) == Tint::Rgb(0x8b, 0, 0),
        tint_of(Some(PreviewStatus::Unchanged)) is Gray,
        tint_of(None) == Tint::Rgb(0xa0, 0xa0, 0xa0),
{
}

} // verus!
