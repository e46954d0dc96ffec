//! The preview of a renaming: one row for each path, counts, and the renames to carry out.
use crate::paths::PathTable;
use crate::text::push_decimal;
use crate::tree::TreeNode;
use std::collections::HashMap;
use vstd::prelude::*;

verus! {

broadcast use vstd::std_specs::hash::group_hash_axioms;

/// What the engine expects of a rename.
#[derive(Debug, Clone, Copy, PartialEq, Eq, Structural)]
pub enum PreviewStatus {
    /// Can be renamed.
    Ready,
    /// Keeps its name.
    Unchanged,
    /// Would clash with another name.
    Conflict,
    /// Would get a name that is not allowed.
    Error,
}

/// The engine's verdict on one entry.
#[derive(Debug)]
pub struct PreviewItem {
    pub path: usize,
    pub old_name: String,
    pub new_name: String,
    pub status: PreviewStatus,
    pub note: String,
}

/// What the window shows of a verdict.
#[derive(Debug, Clone)]
pub struct PreviewRow {
    pub new_name: String,
    pub status: PreviewStatus,
    pub note: String,
}

/// The row that shows `item`.
pub open spec fn row_of(item: PreviewItem) -> PreviewRow {
    PreviewRow { new_name: item.new_name, status: item.status, note: item.note }
}

/// The index of the last item on `p`.
pub open spec fn latest(items: Seq<PreviewItem>, p: usize) -> Option<int>
    decreases items.len(),
{
    if items.len() == 0 {
        None
    } else if items.last().path == p {
        Some(items.len() - 1)
    } else {
        latest(items.drop_last(), p)
    }
}

/// The rows by path: those of the nodes of the tree that the engine has judged. The last verdict
/// on a path counts.
pub open spec fn rows_by_path(nodes: Seq<TreeNode>, items: Seq<PreviewItem>) -> Map<
    usize,
    PreviewRow,
> {
    Map::new(
        |p: usize| crate::tree::path_among(nodes, p) && latest(items, p) is Some,
        |p: usize| row_of(items[latest(items, p)->0]),
    )
}

/// The last item on a path is an item on that path.
pub proof fn latest_is_on_path(items: Seq<PreviewItem>, p: usize)
    ensures
        latest(items, p) matches Some(i) ==> 0 <= i < items.len() && items[i].path == p && (forall|
            j: int,
        |
            i < j < items.len() ==> (#[trigger] items[j]).path != p),
        latest(items, p) is None ==> forall|j: int|
            0 <= j < items.len() ==> (#[trigger] items[j]).path != p,
    decreases items.len(),
{
    if items.len() > 0 && items.last().path != p {
        latest_is_on_path(items.drop_last(), p);
        assert forall|j: int|
            (latest(items, p) matches Some(i) ==> i < j) && 0 <= j < items.len() implies (
        #[trigger] items[j]).path != p by {
            if j < items.len() - 1 {
                assert(items.drop_last()[j].path != p);
            }
        }
    }
}

/// Whether `index` leads from each path to the last item on it.
spec fn indexes(index: Map<usize, usize>, items: Seq<PreviewItem>) -> bool {
    forall|p: usize|
        #![trigger index.contains_key(p)]
        #![trigger latest(items, p)]
        match latest(items, p) {
            Some(i) => index.contains_key(p) && index[p] == i,
            None => !index.contains_key(p),
        }
}

/// Indexes the items by path.
fn index_items(items: &Vec<PreviewItem>) -> (r: HashMap<usize, usize>)
    ensures
        indexes(r@, items@),
{
    let mut index: HashMap<usize, usize> = HashMap::new();
    let mut i: usize = 0;
    while i < items.len()
        invariant
            0 <= i <= items@.len(),
            indexes(index@, items@.take(i as int)),
        decreases items@.len() - i,
    {
        let ghost before = index@;
        index.insert(items[i].path, i);
        assert forall|p: usize| #![trigger latest(items@.take(i + 1), p)]
            match latest(items@.take(i + 1), p) {
                Some(k) => index@.contains_key(p) && index@[p] == k,
                None => !index@.contains_key(p),
            } by {
            assert(items@.take(i + 1).drop_last() =~= items@.take(i as int));
            assert(latest(items@.take(i as int), p) is Some <==> before.contains_key(p));
        }
        i = i + 1;
    }
    assert(items@.take(i as int) =~= items@);
    index
}

/// Adds the rows of the nodes of a tree.
fn add_rows(
    node: &TreeNode,
    items: &Vec<PreviewItem>,
    index: &HashMap<usize, usize>,
    rows: &mut HashMap<usize, PreviewRow>,
)
    requires
        indexes(index@, items@),
    ensures
        final(rows)@ == old(rows)@.union_prefer_right(
            rows_by_path(crate::tree::nodes_of(*node), items@),
        ),
    decreases node,
{
    let ghost done = seq![*node];
    match index.get(&node.path) {
        Some(i) => {
            proof {
                latest_is_on_path(items@, node.path);
            }
            let item = &items[*i];
            rows.insert(
                node.path,
                PreviewRow {
                    new_name: item.new_name.clone(),
                    status: item.status,
                    note: item.note.clone(),
                },
            );
        },
        None => {},
    }
    proof {
        assert forall|p: usize| crate::tree::path_among(done, p) == (p == node.path) by {
            assert(done[0].path == node.path);
        }
        assert(rows@ =~= old(rows)@.union_prefer_right(rows_by_path(done, items@)));
    }
    let mut k: usize = 0;
    assert(done + crate::tree::forest_nodes(node.children@.take(0)) =~= done);
    while k < node.children.len()
        invariant
            0 <= k <= node.children@.len(),
            indexes(index@, items@),
            done == seq![*node],
            rows@ == old(rows)@.union_prefer_right(
                rows_by_path(
                    done + crate::tree::forest_nodes(node.children@.take(k as int)),
                    items@,
                ),
            ),
        decreases node.children@.len() - k,
    {
        add_rows(&node.children[k], items, index, rows);
        proof {
            let so_far = done + crate::tree::forest_nodes(node.children@.take(k as int));
            let child = crate::tree::nodes_of(node.children@[k as int]);
            let more = done + crate::tree::forest_nodes(node.children@.take(k + 1));
            assert(node.children@.take(k + 1).drop_last() =~= node.children@.take(k as int));
            assert(more =~= so_far + child);
            assert forall|p: usize| #[trigger]
                crate::tree::path_among(more, p) == (crate::tree::path_among(so_far, p)
                    || crate::tree::path_among(child, p)) by {
                crate::tree::paths_of_both(so_far, child, p);
            }
            assert(rows@ =~= old(rows)@.union_prefer_right(rows_by_path(more, items@)));
        }
        k = k + 1;
    }
    assert(node.children@.take(k as int) =~= node.children@);
}

/// Builds the rows by path for a tree.
pub fn build_rows(tree: &TreeNode, items: &Vec<PreviewItem>) -> (r: HashMap<usize, PreviewRow>)
    ensures
        r@ == rows_by_path(crate::tree::nodes_of(*tree), items@),
{
    let index = index_items(items);
    let mut rows: HashMap<usize, PreviewRow> = HashMap::new();
    add_rows(tree, items, &index, &mut rows);
    assert(rows@ =~= rows_by_path(crate::tree::nodes_of(*tree), items@));
    rows
}

/// The paths among `within` whose row has the status `st`.
pub open spec fn with_status(
    rows: Map<usize, PreviewRow>,
    within: Set<usize>,
    st: PreviewStatus,
) -> Set<usize> {
    within.filter(|p: usize| rows[p].status == st)
}

/// The number of rows with the status `st`.
pub open spec fn status_total(rows: Map<usize, PreviewRow>, st: PreviewStatus) -> nat {
    with_status(rows, rows.dom(), st).len()
}

/// How many rows there are, in all and of each status.
#[derive(Debug, Clone, Copy, PartialEq, Eq)]
pub struct StatusCounts {
    pub total: usize,
    pub ready: usize,
    pub unchanged: usize,
    pub conflict: usize,
    pub error: usize,
}

/// Whether `c` counts the rows.
pub open spec fn counts_rows(c: StatusCounts, rows: Map<usize, PreviewRow>) -> bool {
    &&& c.total == rows.len()
    &&& c.ready == status_total(rows, PreviewStatus::Ready)
    &&& c.unchanged == status_total(rows, PreviewStatus::Unchanged)
    &&& c.conflict == status_total(rows, PreviewStatus::Conflict)
    &&& c.error == status_total(rows, PreviewStatus::Error)
}

/// One more path adds to the count of its own status and to no other.
proof fn one_more_path(rows: Map<usize, PreviewRow>, within: Set<usize>, p: usize)
    requires
        within.finite(),
        !within.contains(p),
    ensures
        forall|st: PreviewStatus|
            (#[trigger] with_status(rows, within.insert(p), st)).len() == with_status(
                rows,
                within,
                st,
            ).len() + (if rows[p].status == st {
                1nat
            } else {
                0nat
            }),
{
    assert forall|st: PreviewStatus|
        (#[trigger] with_status(rows, within.insert(p), st)).len() == with_status(
            rows,
            within,
            st,
        ).len() + (if rows[p].status == st {
            1nat
        } else {
            0nat
        }) by {
        let small = with_status(rows, within, st);
        let big = with_status(rows, within.insert(p), st);
        within.lemma_len_filter(|q: usize| rows[q].status == st);
        if rows[p].status == st {
            assert(big =~= small.insert(p));
        } else {
            assert(big =~= small);
        }
    }
}

/// The counts of the four statuses add up to the number of paths.
proof fn counts_add_up(rows: Map<usize, PreviewRow>, within: Set<usize>)
    requires
        within.finite(),
    ensures
        with_status(rows, within, PreviewStatus::Ready).len() + with_status(
            rows,
            within,
            PreviewStatus::Unchanged,
        ).len() + with_status(rows, within, PreviewStatus::Conflict).len() + with_status(
            rows,
            within,
            PreviewStatus::Error,
        ).len() == within.len(),
    decreases within.len(),
{
    if within.len() == 0 {
        assert forall|st: PreviewStatus| #[trigger]
            with_status(rows, within, st) =~= Set::<usize>::empty() by {}
    } else {
        let p = within.choose();
        let rest = within.remove(p);
        counts_add_up(rows, rest);
        one_more_path(rows, rest, p);
        assert(rest.insert(p) =~= within);
    }
}

/// Every row has one of the four statuses, so their counts add up to the number of rows.
pub proof fn statuses_partition_rows(rows: Map<usize, PreviewRow>)
    requires
        rows.dom().finite(),
    ensures
        status_total(rows, PreviewStatus::Ready) + status_total(rows, PreviewStatus::Unchanged)
            + status_total(rows, PreviewStatus::Conflict) + status_total(rows, PreviewStatus::Error)
            == rows.len(),
{
    counts_add_up(rows, rows.dom());
}

/// Counts the rows.
pub fn count_rows(rows: &HashMap<usize, PreviewRow>) -> (r: StatusCounts)
    ensures
        counts_rows(r, rows@),
{
    let total: usize = rows.len();
    let mut c = StatusCounts { total, ready: 0, unchanged: 0, conflict: 0, error: 0 };
    let ghost no_path = Set::<usize>::empty();
    proof {
        assert forall|st: PreviewStatus| #[trigger]
            with_status(rows@, no_path, st) =~= Set::<usize>::empty() by {}
    }
    let keys = rows.keys();
    let ghost all = vstd::std_specs::iter::IteratorSpec::remaining(&keys).unref();
    assert(all.take(0).to_set() =~= no_path);
    for key in it: keys
        invariant
            it.seq().unref() == all,
            all.to_set() == rows@.dom(),
            all.no_duplicates(),
            all.len() == rows@.dom().len() == total,
            c.total == total,
            c.ready == with_status(
                rows@,
                all.take(it.index()).to_set(),
                PreviewStatus::Ready,
            ).len(),
            c.unchanged == with_status(
                rows@,
                all.take(it.index()).to_set(),
                PreviewStatus::Unchanged,
            ).len(),
            c.conflict == with_status(
                rows@,
                all.take(it.index()).to_set(),
                PreviewStatus::Conflict,
            ).len(),
            c.error == with_status(
                rows@,
                all.take(it.index()).to_set(),
                PreviewStatus::Error,
            ).len(),
            c.ready + c.unchanged + c.conflict + c.error == it.index(),
    {
        proof {
            let i = it.index();
            let seen = all.take(i).to_set();
            assert(all[i] == *key);
            assert(all.contains(*key));
            assert(rows@.dom().contains(*key));
            assert(!seen.contains(*key)) by {
                if all.take(i).contains(*key) {
                    let j = choose|j: int| 0 <= j < i && all.take(i)[j] == *key;
                    assert(all[j] == all[i]);
                }
            }
            assert(all.take(i + 1) =~= all.take(i).push(*key));
            all.take(i).lemma_push_to_set_commute(*key);
            one_more_path(rows@, seen, *key);
        }
        match rows.get(key) {
            Some(row) => match row.status {
                PreviewStatus::Ready => {
                    c.ready = c.ready + 1;
                },
                PreviewStatus::Unchanged => {
                    c.unchanged = c.unchanged + 1;
                },
                PreviewStatus::Conflict => {
                    c.conflict = c.conflict + 1;
                },
                PreviewStatus::Error => {
                    c.error = c.error + 1;
                },
            },
            None => {},
        }
    }
    assert(all.take(all.len() as int) =~= all);
    c
}

/// There is at most one row for each node, so the nodes left over are those without a row.
pub proof fn no_more_rows_than_nodes(nodes: Seq<TreeNode>, items: Seq<PreviewItem>)
    ensures
        rows_by_path(nodes, items).dom().finite(),
        rows_by_path(nodes, items).len() <= nodes.len(),
{
    let paths = nodes.map_values(|n: TreeNode| n.path);
    let dom = rows_by_path(nodes, items).dom();
    vstd::seq_lib::seq_to_set_is_finite(paths);
    paths.lemma_cardinality_of_set();
    assert forall|p: usize| dom.contains(p) implies paths.to_set().contains(p) by {
        let i = choose|i: int| 0 <= i < nodes.len() && (#[trigger] nodes[i]).path == p;
        assert(paths[i] == p);
    }
    vstd::set_lib::lemma_len_subset(dom, paths.to_set());
}

/// The line of figures above the preview.
pub open spec fn stats_text(node_count: nat, c: StatusCounts) -> Seq<char> {
    "共 "@ + crate::text::decimal(node_count) + " 个节点 | 可改名 "@ + crate::text::decimal(
        c.total as nat,
    ) + " | 将重命名 "@ + crate::text::decimal(c.ready as nat) + " | 冲突 "@
        + crate::text::decimal(c.conflict as nat) + " | 错误 "@ + crate::text::decimal(
        c.error as nat,
    ) + " | 无变化 "@ + crate::text::decimal(c.unchanged as nat) + " | 跳过 "@
        + crate::text::decimal(
        if node_count >= c.total {
            (node_count - c.total) as nat
        } else {
            0
        },
    )
}

/// Writes the line of figures above the preview.
pub fn write_stats(node_count: usize, c: &StatusCounts) -> (r: String)
    ensures
        r@ == stats_text(node_count as nat, *c),
{
    let mut r = "共 ".to_owned();
    push_decimal(&mut r, node_count);
    r.append(" 个节点 | 可改名 ");
    push_decimal(&mut r, c.total);
    r.append(" | 将重命名 ");
    push_decimal(&mut r, c.ready);
    r.append(" | 冲突 ");
    push_decimal(&mut r, c.conflict);
    r.append(" | 错误 ");
    push_decimal(&mut r, c.error);
    r.append(" | 无变化 ");
    push_decimal(&mut r, c.unchanged);
    r.append(" | 跳过 ");
    push_decimal(&mut r, node_count.saturating_sub(c.total));
    r
}

/// One rename to carry out: `source` gets the name `new_name` in the directory `folder`, or stands
/// alone under that name where it is in no directory.
#[derive(Debug)]
pub struct RenameJob {
    pub source: usize,
    pub folder: Option<usize>,
    pub new_name: String,
}

/// Whether an item calls for a rename.
pub open spec fn calls_for_rename(item: PreviewItem) -> bool {
    item.status == PreviewStatus::Ready && item.new_name@ != item.old_name@
}

/// The rename that an item calls for.
pub open spec fn job_of(item: PreviewItem, parents: Seq<Option<usize>>) -> RenameJob {
    RenameJob {
        source: item.path,
        folder: crate::paths::parent_in(parents, item.path),
        new_name: item.new_name,
    }
}

/// The renames that the items call for, in their order.
pub open spec fn jobs_of(items: Seq<PreviewItem>, parents: Seq<Option<usize>>) -> Seq<RenameJob> {
    items.filter(|i: PreviewItem| calls_for_rename(i)).map_values(
        |i: PreviewItem| job_of(i, parents),
    )
}

/// Collects the renames that the items call for.
pub fn collect_jobs(items: &Vec<PreviewItem>, paths: &PathTable) -> (r: Vec<RenameJob>)
    ensures
        r@ == jobs_of(items@, paths@),
{
    let mut r: Vec<RenameJob> = Vec::new();
    let mut i: usize = 0;
    proof {
        reveal(Seq::filter);
        assert(items@.take(0) =~= Seq::<PreviewItem>::empty());
        assert(jobs_of(items@.take(0), paths@) =~= Seq::<RenameJob>::empty());
    }
    while i < items.len()
        invariant
            0 <= i <= items@.len(),
            r@ == jobs_of(items@.take(i as int), paths@),
        decreases items@.len() - i,
    {
        proof {
            reveal(Seq::filter);
            assert(items@.take(i + 1).drop_last() =~= items@.take(i as int));
        }
        let item = &items[i];
        if item.status == PreviewStatus::Ready && item.new_name != item.old_name {
            r.push(
                RenameJob {
                    source: item.path,
                    folder: paths.parent(item.path),
                    new_name: item.new_name.clone(),
                },
            );
        }
        assert(r@ =~= jobs_of(items@.take(i + 1), paths@));
        i = i + 1;
    }
    assert(items@.take(i as int) =~= items@);
    r
}

/// Every rename that is carried out was judged to be possible and changes a name, and every item
/// that calls for a rename leads to one.
pub proof fn jobs_are_the_possible_changes(
    items: Seq<PreviewItem>,
    parents: Seq<Option<usize>>,
)
    ensures
        forall|j: int|
            0 <= j < jobs_of(items, parents).len() ==> exists|i: int|
                0 <= i < items.len() && calls_for_rename(#[trigger] items[i])
                    && #[trigger] jobs_of(items, parents)[j] == job_of(items[i], parents),
        forall|i: int|
            0 <= i < items.len() && calls_for_rename(#[trigger] items[i]) ==> jobs_of(
                items,
                parents,
            ).contains(job_of(items[i], parents)),
{
    let pred = |i: PreviewItem| calls_for_rename(i);
    let kept = items.filter(pred);
    let jobs = jobs_of(items, parents);
    assert forall|j: int| 0 <= j < jobs.len() implies exists|i: int|
        0 <= i < items.len() && calls_for_rename(#[trigger] items[i]) && #[trigger] jobs[j]
            == job_of(items[i], parents) by {
        items.lemma_filter_pred(pred, j);
        assert(kept.contains(kept[j]));
        items.lemma_filter_contains_rev(pred, kept[j]);
        let i = choose|i: int| 0 <= i < items.len() && items[i] == kept[j];
        assert(calls_for_rename(items[i]));
    }
    assert forall|i: int| 0 <= i < items.len() && calls_for_rename(
        #[trigger] items[i],
    ) implies jobs.contains(job_of(items[i], parents)) by {
        items.lemma_filter_contains(pred, i);
        assert(kept.contains(items[i]));
        let j = choose|j: int| 0 <= j < kept.len() && kept[j] == items[i];
        assert(jobs[j] == job_of(items[i], parents));
    }
}

/// How many of the first `n` items can be renamed and change their name.
pub open spec fn changes_among(items: Seq<PreviewItem>, n: int) -> nat
    decreases n,
{
    if n <= 0 {
        0
    } else {
        let item = items[n - 1];
        changes_among(items, n - 1) + (if item.status == PreviewStatus::Ready
            && !(item.new_name@ =~= item.old_name@) {
            1nat
        } else {
            0nat
        })
    }
}

/// The count depends on the first items alone.
proof fn changes_among_first(a: Seq<PreviewItem>, b: Seq<PreviewItem>, n: int)
    requires
        n <= a.len(),
        n <= b.len(),
        forall|i: int| 0 <= i < n ==> a[i] == b[i],
    ensures
        changes_among(a, n) == changes_among(b, n),
    decreases n,
{
    if n > 0 {
        changes_among_first(a, b, n - 1);
    }
}

/// Whether item `i` was judged ready, its new name is another text than its old one, and `j` such
/// items stand before it.
pub open spec fn changes_as(items: Seq<PreviewItem>, i: int, j: int) -> bool {
    &&& 0 <= i < items.len()
    &&& items[i].status is Ready
    &&& !(items[i].new_name@ =~= items[i].old_name@)
    &&& changes_among(items, i) == j
}

/// Whether some such item has `j` such items before it.
pub open spec fn is_change(items: Seq<PreviewItem>, j: int) -> bool {
    exists|i: int| #[trigger] changes_as(items, i, j)
}

/// Every item that was judged ready and whose new name is another text than its old one is renamed
/// to that new name in the directory it lies in, in the order of the items, and nothing else is
/// renamed. Whether the new name is longer, shorter or as long makes no difference.
pub proof fn ready_changes_are_carried_out(
    items: Seq<PreviewItem>,
    parents: Seq<Option<usize>>,
)
    ensures
        jobs_of(items, parents).len() == changes_among(items, items.len() as int),
        forall|i: int, j: int| #[trigger]
            changes_as(items, i, j) ==> {
                &&& 0 <= j < jobs_of(items, parents).len()
                &&& jobs_of(items, parents)[j].source == items[i].path
                &&& jobs_of(items, parents)[j].new_name == items[i].new_name
                &&& jobs_of(items, parents)[j].folder == (if items[i].path < parents.len() {
                    parents[items[i].path as int]
                } else {
                    None
                })
            },
        forall|j: int| 0 <= j < jobs_of(items, parents).len() ==> #[trigger] is_change(items, j),
    decreases items.len(),
{
    reveal(Seq::filter);
    let all = jobs_of(items, parents);
    if items.len() == 0 {
        assert(all.len() == 0);
    } else {
        let rest = items.drop_last();
        let last = items.len() - 1;
        let earlier = jobs_of(rest, parents);
        ready_changes_are_carried_out(rest, parents);
        changes_among_first(items, rest, last);
        assert(changes_among(items, last + 1) == changes_among(rest, last) + (if changes_as(
            items,
            last,
            changes_among(items, last) as int,
        ) {
            1nat
        } else {
            0nat
        }));
        if changes_as(items, last, changes_among(items, last) as int) {
            assert(all =~= earlier.push(job_of(items[last], parents)));
        } else {
            assert(all =~= earlier);
        }
        assert forall|i: int, j: int| #[trigger] changes_as(items, i, j) implies {
            &&& 0 <= j < all.len()
            &&& all[j].source == items[i].path
            &&& all[j].new_name == items[i].new_name
            &&& all[j].folder == (if items[i].path < parents.len() {
                parents[items[i].path as int]
            } else {
                None
            })
        } by {
            if i < last {
                changes_among_first(items, rest, i);
                assert(changes_as(rest, i, j));
            }
        }
        assert forall|j: int| 0 <= j < all.len() implies #[trigger] is_change(items, j) by {
            if j < earlier.len() {
                assert(is_change(rest, j));
                let i = choose|i: int| #[trigger] changes_as(rest, i, j);
                changes_among_first(items, rest, i);
                assert(changes_as(items, i, j));
            } else {
                assert(changes_as(items, last, j));
            }
        }
    }
}

/// Whether item `i` is the last one on its path.
pub open spec fn is_final(items: Seq<PreviewItem>, i: int) -> bool {
    &&& 0 <= i < items.len()
    &&& forall|k: int| i < k < items.len() ==> (#[trigger] items[k]).path != items[i].path
}

/// A path has a row exactly where it is that of a node and of an item, and the row holds the new
/// name, the status and the remark of the last item on the path, whatever the status is.
pub proof fn rows_hold_the_final_verdicts(
    nodes: Seq<TreeNode>,
    items: Seq<PreviewItem>,
    p: usize,
)
    ensures
        rows_by_path(nodes, items).contains_key(p) <==> {
            &&& exists|n: int| 0 <= n < nodes.len() && (#[trigger] nodes[n]).path == p
            &&& exists|i: int| 0 <= i < items.len() && (#[trigger] items[i]).path == p
        },
        forall|i: int|
            #[trigger] is_final(items, i) && items[i].path == p && rows_by_path(
                nodes,
                items,
            ).contains_key(p) ==> {
                let row = rows_by_path(nodes, items)[p];
                &&& row.new_name == items[i].new_name
                &&& row.status == items[i].status
                &&& row.note == items[i].note
            },
{
    latest_is_on_path(items, p);
    if let Some(l) = latest(items, p) {
        assert(items[l].path == p);
        assert forall|i: int| #[trigger] is_final(items, i) && items[i].path == p implies i == l by {
            if i < l {
                assert(items[l].path != items[i].path);
            }
        }
    }
}

/// One more row adds one to the total and to the count of its own status, and to no other count;
/// without rows every count is zero.
pub proof fn one_more_row_counts_once(
    rows: Map<usize, PreviewRow>,
    p: usize,
    row: PreviewRow,
    c: StatusCounts,
    more: StatusCounts,
)
    requires
        rows.dom().finite(),
        !rows.contains_key(p),
        counts_rows(c, rows),
        counts_rows(more, rows.insert(p, row)),
    ensures
        more.total == c.total + 1,
        more.ready == c.ready + (if row.status is Ready {
            1int
        } else {
            0int
        }),
        more.unchanged == c.unchanged + (if row.status is Unchanged {
            1int
        } else {
            0int
        }),
        more.conflict == c.conflict + (if row.status is Conflict {
            1int
        } else {
            0int
        }),
        more.error == c.error + (if row.status is Error {
            1int
        } else {
            0int
        }),
        rows.len() == 0 ==> c.total == 0 && c.ready == 0 && c.unchanged == 0 && c.conflict == 0
            && c.error == 0,
{
    let all = rows.insert(p, row);
    one_more_path(all, rows.dom(), p);
    assert(all.dom() =~= rows.dom().insert(p));
    assert forall|st: PreviewStatus| #[trigger]
        with_status(all, rows.dom(), st) =~= with_status(rows, rows.dom(), st) by {}
    assert(with_status(all, all.dom(), PreviewStatus::Ready).len() == status_total(
        all,
        PreviewStatus::Ready,
    ));
    counts_add_up(rows, rows.dom());
}

/// Whether `text` states the number `n` behind `label`: the numeral follows the label, and no
/// further digit follows the numeral.
pub open spec fn states(text: Seq<char>, label: Seq<char>, n: nat) -> bool {
    exists|a: Seq<char>, b: Seq<char>|
        text == #[trigger] (a + label + crate::text::decimal(n) + b) && (b.len() == 0 || b[0]
            == ' ')
}

/// The line of figures states each figure behind its own label: the nodes, those with a verdict,
/// the verdicts by status, and the nodes left over.
pub proof fn stats_state_every_figure(node_count: nat, c: StatusCounts)
    ensures
        states(stats_text(node_count, c), "共 "@, node_count),
        states(stats_text(node_count, c), "可改名 "@, c.total as nat),
        states(stats_text(node_count, c), "将重命名 "@, c.ready as nat),
        states(stats_text(node_count, c), "冲突 "@, c.conflict as nat),
        states(stats_text(node_count, c), "错误 "@, c.error as nat),
        states(stats_text(node_count, c), "无变化 "@, c.unchanged as nat),
        c.total <= node_count ==> states(
            stats_text(node_count, c),
            "跳过 "@,
            (node_count - c.total) as nat,
        ),
{
    let skipped = if node_count >= c.total {
        (node_count - c.total) as nat
    } else {
        0
    };
    reveal_strlit(" 个节点 | 可改名 ");
    reveal_strlit(" 个节点 | ");
    reveal_strlit("可改名 ");
    reveal_strlit(" | 将重命名 ");
    reveal_strlit("将重命名 ");
    reveal_strlit(" | 冲突 ");
    reveal_strlit("冲突 ");
    reveal_strlit(" | 错误 ");
    reveal_strlit("错误 ");
    reveal_strlit(" | 无变化 ");
    reveal_strlit("无变化 ");
    reveal_strlit(" | 跳过 ");
    reveal_strlit("跳过 ");
    reveal_strlit(" | ");
    assert(" 个节点 | 可改名 "@ =~= " 个节点 | "@ + "可改名 "@);
    assert(" | 将重命名 "@ =~= " | "@ + "将重命名 "@);
    assert(" | 冲突 "@ =~= " | "@ + "冲突 "@);
    assert(" | 错误 "@ =~= " | "@ + "错误 "@);
    assert(" | 无变化 "@ =~= " | "@ + "无变化 "@);
    assert(" | 跳过 "@ =~= " | "@ + "跳过 "@);
    let t0 = "共 "@ + crate::text::decimal(node_count);
    let t1 = t0 + " 个节点 | 可改名 "@ + crate::text::decimal(c.total as nat);
    let t2 = t1 + " | 将重命名 "@ + crate::text::decimal(c.ready as nat);
    let t3 = t2 + " | 冲突 "@ + crate::text::decimal(c.conflict as nat);
    let t4 = t3 + " | 错误 "@ + crate::text::decimal(c.error as nat);
    let t5 = t4 + " | 无变化 "@ + crate::text::decimal(c.unchanged as nat);
    let none = Seq::<char>::empty();
    assert(t0 =~= none + "共 "@ + crate::text::decimal(node_count) + none);
    assert(states(t0, "共 "@, node_count));
    one_more_figure(t0, " 个节点 | "@, "可改名 "@, c.total as nat);
    one_more_figure(t1, " | "@, "将重命名 "@, c.ready as nat);
    one_more_figure(t2, " | "@, "冲突 "@, c.conflict as nat);
    one_more_figure(t3, " | "@, "错误 "@, c.error as nat);
    one_more_figure(t4, " | "@, "无变化 "@, c.unchanged as nat);
    one_more_figure(t5, " | "@, "跳过 "@, skipped);
}

/// A further figure behind a line is stated, and so are still those before it.
proof fn one_more_figure(text: Seq<char>, sep: Seq<char>, label: Seq<char>, n: nat)
    requires
        sep.len() > 0,
        sep[0] == ' ',
    ensures
        states(text + (sep + label) + crate::text::decimal(n), label, n),
        forall|l: Seq<char>, m: nat|
            states(text, l, m) ==> #[trigger] states(
                text + (sep + label) + crate::text::decimal(n),
                l,
                m,
            ),
{
    let next = text + (sep + label) + crate::text::decimal(n);
    let none = Seq::<char>::empty();
    let front = text + sep;
    assert(next =~= front + label + crate::text::decimal(n) + none);
    assert forall|l: Seq<char>, m: nat| states(text, l, m) implies #[trigger] states(
        next,
        l,
        m,
    ) by {
        let (a, b) = choose|a: Seq<char>, b: Seq<char>|
            text == #[trigger] (a + l + crate::text::decimal(m) + b) && (b.len() == 0 || b[0]
                == ' ');
        let more = b + (sep + label) + crate::text::decimal(n);
        assert(next =~= a + l + crate::text::decimal(m) + more);
        assert(more[0] == ' ');
    }
}

/// There is nothing to rename exactly where every item was judged otherwise than ready or keeps its
/// name.
pub proof fn no_jobs_without_changes(items: Seq<PreviewItem>, parents: Seq<Option<usize>>)
    ensures
        jobs_of(items, parents).len() == 0 <==> forall|i: int|
            0 <= i < items.len() ==> (#[trigger] items[i]).status != PreviewStatus::Ready
                || items[i].new_name@ == items[i].old_name@,
{
    ready_changes_are_carried_out(items, parents);
    if jobs_of(items, parents).len() == 0 {
        assert forall|i: int| 0 <= i < items.len() implies (#[trigger] items[i]).status
            != PreviewStatus::Ready || items[i].new_name@ == items[i].old_name@ by {
            assert(!changes_as(items, i, changes_among(items, i) as int));
        }
    } else {
        assert(is_change(items, 0));
    }
}

} // verus!
