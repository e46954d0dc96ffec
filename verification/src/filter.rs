//! The status filter of the preview.
use crate::paths::PathTable;
use crate::preview::{PreviewRow, PreviewStatus, StatusCounts};
use crate::text::push_decimal;
use std::collections::{HashMap, HashSet};
use vstd::prelude::*;

verus! {

broadcast use vstd::std_specs::hash::group_hash_axioms;

/// Whether the row of `p` has the status `st`.
pub open spec fn matches_status(
    rows: Map<usize, PreviewRow>,
    p: usize,
    st: PreviewStatus,
) -> bool {
    rows.contains_key(p) && rows[p].status == st
}

/// The paths with a row of the status `st` and all directories above them.
pub open spec fn hits_of(
    rows: Map<usize, PreviewRow>,
    parents: Seq<Option<usize>>,
    st: PreviewStatus,
) -> Set<usize> {
    Set::new(
        |a: usize|
            exists|p: usize|
                matches_status(rows, p, st) && #[trigger] crate::paths::at_or_above(parents, a, p),
    )
}

/// Whether the parent of each path of the set is in the set.
pub open spec fn closed_upwards(paths: Set<usize>, parents: Seq<Option<usize>>) -> bool {
    forall|a: usize|
        #[trigger] paths.contains(a) ==> (crate::paths::parent_in(parents, a) matches Some(q)
            ==> paths.contains(q))
}

/// The hits are what spreading from the matching paths to their parents, again and again, reaches:
/// they hold the matching paths and their parents, and lie in every set that does.
pub proof fn hits_are_the_least_closed_set(
    rows: Map<usize, PreviewRow>,
    parents: Seq<Option<usize>>,
    st: PreviewStatus,
    other: Set<usize>,
)
    requires
        crate::paths::parents_first(parents),
    ensures
        closed_upwards(hits_of(rows, parents, st), parents),
        forall|p: usize|
            #[trigger] matches_status(rows, p, st) ==> hits_of(rows, parents, st).contains(p),
        closed_upwards(other, parents) && (forall|p: usize| #[trigger]
            matches_status(rows, p, st) ==> other.contains(p)) ==> hits_of(
            rows,
            parents,
            st,
        ).subset_of(other),
{
    let hits = hits_of(rows, parents, st);
    assert forall|a: usize| #[trigger] hits.contains(a) implies (crate::paths::parent_in(parents, a)
        matches Some(q) ==> hits.contains(q)) by {
        if let Some(q) = crate::paths::parent_in(parents, a) {
            let p = choose|p: usize|
                matches_status(rows, p, st) && #[trigger] crate::paths::at_or_above(
                    parents,
                    a,
                    p,
                );
            assert(crate::paths::at_or_above(parents, q, q));
            assert(crate::paths::at_or_above(parents, q, a));
            crate::paths::above_is_transitive(parents, q, a, p);
        }
    }
    assert forall|p: usize| #[trigger] matches_status(rows, p, st) implies hits.contains(p) by {
        assert(crate::paths::at_or_above(parents, p, p));
    }
    if closed_upwards(other, parents) && (forall|p: usize| #[trigger]
        matches_status(rows, p, st) ==> other.contains(p)) {
        assert forall|a: usize| hits.contains(a) implies other.contains(a) by {
            let p = choose|p: usize|
                matches_status(rows, p, st) && #[trigger] crate::paths::at_or_above(
                    parents,
                    a,
                    p,
                );
            chain_in_closed_set(parents, other, a, p);
        }
    }
}

/// A set that is closed upwards holds everything above its paths.
proof fn chain_in_closed_set(
    parents: Seq<Option<usize>>,
    paths: Set<usize>,
    a: usize,
    p: usize,
)
    requires
        closed_upwards(paths, parents),
        paths.contains(p),
        crate::paths::at_or_above(parents, a, p),
    ensures
        paths.contains(a),
    decreases p,
{
    if a != p {
        chain_in_closed_set(parents, paths, a, crate::paths::parent_in(parents, p)->0);
    }
}

/// Adds `p` and the directories above it.
fn add_chain(hits: &mut HashSet<usize>, paths: &PathTable, p: usize)
    ensures
        final(hits)@ == old(hits)@.union(
            Set::new(|a: usize| crate::paths::at_or_above(paths@, a, p)),
        ),
    decreases p,
{
    hits.insert(p);
    match paths.parent(p) {
        Some(q) => {
            add_chain(hits, paths, q);
        },
        None => {},
    }
    assert(hits@ =~= old(hits)@.union(
        Set::new(|a: usize| crate::paths::at_or_above(paths@, a, p)),
    ));
}

/// Finds the paths with a row of the status `st` and all directories above them.
pub fn find_hits(
    rows: &HashMap<usize, PreviewRow>,
    paths: &PathTable,
    st: PreviewStatus,
) -> (r: HashSet<usize>)
    ensures
        r@ == hits_of(rows@, paths@, st),
{
    let mut hits: HashSet<usize> = HashSet::new();
    let keys = rows.keys();
    let ghost all = vstd::std_specs::iter::IteratorSpec::remaining(&keys).unref();
    for key in it: keys
        invariant
            it.seq().unref() == all,
            all.to_set() == rows@.dom(),
            forall|a: usize|
                #![trigger hits@.contains(a)]
                hits@.contains(a) <==> exists|i: int|
                    0 <= i < it.index() && rows@[all[i]].status == st
                        && #[trigger] crate::paths::at_or_above(paths@, a, all[i]),
    {
        let ghost before = hits@;
        let ghost n = it.index();
        proof {
            assert(all[n] == *key);
            assert(all.contains(*key));
            assert(rows@.dom().contains(*key));
        }
        match rows.get(key) {
            Some(row) => {
                if row.status == st {
                    add_chain(&mut hits, paths, *key);
                }
            },
            None => {},
        }
        assert forall|a: usize| #![trigger hits@.contains(a)]
            hits@.contains(a) <==> exists|i: int|
                0 <= i < n + 1 && rows@[all[i]].status == st
                    && #[trigger] crate::paths::at_or_above(paths@, a, all[i]) by {
            if hits@.contains(a) {
                if before.contains(a) {
                    let i = choose|i: int|
                        0 <= i < n && rows@[all[i]].status == st
                            && #[trigger] crate::paths::at_or_above(paths@, a, all[i]);
                    assert(crate::paths::at_or_above(paths@, a, all[i]));
                } else {
                    assert(crate::paths::at_or_above(paths@, a, all[n]));
                }
            }
            if exists|i: int|
                0 <= i < n + 1 && rows@[all[i]].status == st
                    && #[trigger] crate::paths::at_or_above(paths@, a, all[i]) {
                let i = choose|i: int|
                    0 <= i < n + 1 && rows@[all[i]].status == st
                        && #[trigger] crate::paths::at_or_above(paths@, a, all[i]);
                if i < n {
                    assert(before.contains(a));
                }
            }
        }
    }
    assert forall|a: usize| hits@.contains(a) == hits_of(rows@, paths@, st).contains(a) by {
        if hits@.contains(a) {
            let i = choose|i: int|
                0 <= i < all.len() && rows@[all[i]].status == st
                    && #[trigger] crate::paths::at_or_above(paths@, a, all[i]);
            assert(all.to_set().contains(all[i]));
            assert(matches_status(rows@, all[i], st));
        }
        if hits_of(rows@, paths@, st).contains(a) {
            let p = choose|p: usize|
                matches_status(rows@, p, st) && #[trigger] crate::paths::at_or_above(
                    paths@,
                    a,
                    p,
                );
            assert(all.to_set().contains(p));
            let i = choose|i: int| 0 <= i < all.len() && all[i] == p;
            assert(crate::paths::at_or_above(paths@, a, all[i]));
        }
    }
    assert(hits@ =~= hits_of(rows@, paths@, st));
    hits
}

/// The filter after a click on the button for `clicked`, where `current` is the filter before:
/// a click on the active button clears the filter.
pub open spec fn filter_after(
    current: Option<PreviewStatus>,
    clicked: Option<PreviewStatus>,
) -> Option<PreviewStatus> {
    if current == clicked {
        None
    } else {
        clicked
    }
}

/// Works out the filter after a click on the button for `clicked`.
pub fn click_filter(
    current: Option<PreviewStatus>,
    clicked: Option<PreviewStatus>,
) -> (r: Option<PreviewStatus>)
    ensures
        r == filter_after(current, clicked),
        current == clicked ==> r is None,
        current != clicked ==> r == clicked,
{
    match (current, clicked) {
        (Some(a), Some(b)) => if a == b {
            None
        } else {
            clicked
        },
        _ => clicked,
    }
}

/// Two clicks on a button that is not active clear the filter, two clicks on the active one leave it
/// as it was, and the button for everything always clears it.
pub proof fn clicking_twice(current: Option<PreviewStatus>, clicked: Option<PreviewStatus>)
    ensures
        filter_after(filter_after(current, clicked), clicked) == (if current == clicked {
            clicked
        } else {
            None
        }),
        filter_after(current, None) is None,
{
}

/// A button of the filter bar.
#[derive(Debug)]
pub struct FilterButton {
    pub caption: String,
    pub status: Option<PreviewStatus>,
    pub selected: bool,
}

/// The status behind the button at each position of the filter bar.
pub open spec fn bar_status(i: int) -> Option<PreviewStatus> {
    if i == 1 {
        Some(PreviewStatus::Ready)
    } else if i == 2 {
        Some(PreviewStatus::Unchanged)
    } else if i == 3 {
        Some(PreviewStatus::Conflict)
    } else if i == 4 {
        Some(PreviewStatus::Error)
    } else {
        None
    }
}

/// The word for a status, or for all of them.
pub open spec fn bar_word(status: Option<PreviewStatus>) -> Seq<char> {
    match status {
        None => "全部"@,
        Some(PreviewStatus::Ready) => "就绪"@,
        Some(PreviewStatus::Unchanged) => "无变化"@,
        Some(PreviewStatus::Conflict) => "冲突"@,
        Some(PreviewStatus::Error) => "错误"@,
    }
}

/// The count beside a word of the filter bar.
pub open spec fn bar_count(status: Option<PreviewStatus>, c: StatusCounts) -> usize {
    match status {
        None => c.total,
        Some(PreviewStatus::Ready) => c.ready,
        Some(PreviewStatus::Unchanged) => c.unchanged,
        Some(PreviewStatus::Conflict) => c.conflict,
        Some(PreviewStatus::Error) => c.error,
    }
}

/// Whether `b` is the button for `status`.
pub open spec fn is_button(
    b: FilterButton,
    status: Option<PreviewStatus>,
    c: StatusCounts,
    current: Option<PreviewStatus>,
) -> bool {
    &&& b.status == status
    &&& b.selected == (current == status)
    &&& b.caption@ == bar_word(status) + " "@ + crate::text::decimal(
        bar_count(status, c) as nat,
    )
}

/// The statuses among the first `n` of the filter bar whose button is shown: the button for
/// everything always is, the others where they have something to show.
pub open spec fn bar_statuses(c: StatusCounts, n: nat) -> Seq<Option<PreviewStatus>>
    decreases n,
{
    if n == 0 {
        Seq::empty()
    } else {
        let status = bar_status(n - 1);
        if status is None || bar_count(status, c) > 0 {
            bar_statuses(c, (n - 1) as nat).push(status)
        } else {
            bar_statuses(c, (n - 1) as nat)
        }
    }
}

/// Whether `bar` is the filter bar.
pub open spec fn is_bar(
    bar: Seq<FilterButton>,
    statuses: Seq<Option<PreviewStatus>>,
    c: StatusCounts,
    current: Option<PreviewStatus>,
) -> bool {
    &&& bar.len() == statuses.len()
    &&& forall|i: int| 0 <= i < bar.len() ==> is_button(#[trigger] bar[i], statuses[i], c, current)
}

/// The word for a status, or for all of them.
pub fn status_word(status: Option<PreviewStatus>) -> (r: &'static str)
    ensures
        r@ == bar_word(status),
{
    match status {
        None => "全部",
        Some(PreviewStatus::Ready) => "就绪",
        Some(PreviewStatus::Unchanged) => "无变化",
        Some(PreviewStatus::Conflict) => "冲突",
        Some(PreviewStatus::Error) => "错误",
    }
}

/// Lays out the filter bar.
pub fn filter_bar(c: &StatusCounts, current: Option<PreviewStatus>) -> (r: Vec<FilterButton>)
    ensures
        is_bar(r@, bar_statuses(*c, 5), *c, current),
{
    let mut bar: Vec<FilterButton> = Vec::new();
    let mut i: usize = 0;
    while i < 5
        invariant
            0 <= i <= 5,
            is_bar(bar@, bar_statuses(*c, i as nat), *c, current),
        decreases 5 - i,
    {
        let status: Option<PreviewStatus> = match i {
            1 => Some(PreviewStatus::Ready),
            2 => Some(PreviewStatus::Unchanged),
            3 => Some(PreviewStatus::Conflict),
            4 => Some(PreviewStatus::Error),
            _ => None,
        };
        let count: usize = match status {
            None => c.total,
            Some(PreviewStatus::Ready) => c.ready,
            Some(PreviewStatus::Unchanged) => c.unchanged,
            Some(PreviewStatus::Conflict) => c.conflict,
            Some(PreviewStatus::Error) => c.error,
        };
        if count > 0 || status.is_none() {
            let selected: bool = match (current, status) {
                (None, None) => true,
                (Some(a), Some(b)) => a == b,
                _ => false,
            };
            let mut caption = status_word(status).to_owned();
            caption.append(" ");
            push_decimal(&mut caption, count);
            bar.push(FilterButton { caption, status, selected });
        }
        i = i + 1;
    }
    bar
}

/// A path is among the hits exactly where some path with a row of the wanted status is reached from
/// below: that path itself, or a directory on the way up from it.
pub proof fn hits_lie_above_matching_rows(
    rows: Map<usize, PreviewRow>,
    parents: Seq<Option<usize>>,
    st: PreviewStatus,
    a: usize,
)
    requires
        crate::paths::parents_first(parents),
    ensures
        hits_of(rows, parents, st).contains(a) <==> exists|p: usize, chain: Seq<usize>|
            rows.dom().contains(p) && rows[p].status == st
                && #[trigger] crate::paths::leads_from_to(parents, chain, p, a),
{
    if hits_of(rows, parents, st).contains(a) {
        let p = choose|p: usize|
            matches_status(rows, p, st) && #[trigger] crate::paths::at_or_above(parents, a, p);
        crate::paths::above_means_reached_by_parents(parents, a, p);
        let chain = choose|chain: Seq<usize>| #[trigger]
            crate::paths::leads_from_to(parents, chain, p, a);
        assert(crate::paths::leads_from_to(parents, chain, p, a));
    }
    if exists|p: usize, chain: Seq<usize>|
        rows.dom().contains(p) && rows[p].status == st && #[trigger] crate::paths::leads_from_to(
            parents,
            chain,
            p,
            a,
        ) {
        let (p, chain) = choose|p: usize, chain: Seq<usize>|
            rows.dom().contains(p) && rows[p].status == st
                && #[trigger] crate::paths::leads_from_to(parents, chain, p, a);
        crate::paths::above_means_reached_by_parents(parents, a, p);
        assert(matches_status(rows, p, st));
    }
}

/// Whether one of the buttons is for `status`.
pub open spec fn has_button(bar: Seq<FilterButton>, status: Option<PreviewStatus>) -> bool {
    exists|i: int| 0 <= i < bar.len() && (#[trigger] bar[i]).status == status
}

/// The filter bar begins with the button for everything, offers a status exactly where some row has
/// it, marks the button of the current filter and no other, and writes beside each word the number
/// of rows behind the button. The buttons stand in a fixed order, none of them twice.
pub proof fn filter_bar_offers_what_there_is(
    bar: Seq<FilterButton>,
    c: StatusCounts,
    current: Option<PreviewStatus>,
)
    requires
        is_bar(bar, bar_statuses(c, 5), c, current),
    ensures
        bar.len() > 0,
        bar[0].status is None,
        has_button(bar, Some(PreviewStatus::Ready)) <==> c.ready > 0,
        has_button(bar, Some(PreviewStatus::Unchanged)) <==> c.unchanged > 0,
        has_button(bar, Some(PreviewStatus::Conflict)) <==> c.conflict > 0,
        has_button(bar, Some(PreviewStatus::Error)) <==> c.error > 0,
        forall|i: int|
            0 <= i < bar.len() ==> {
                let b = #[trigger] bar[i];
                &&& b.selected <==> b.status == current
                &&& b.status is None ==> b.caption@ == "全部"@ + " "@ + crate::text::decimal(
                    c.total as nat,
                )
                &&& b.status == Some(PreviewStatus::Ready) ==> b.caption@ == "就绪"@ + " "@
                    + crate::text::decimal(c.ready as nat)
                &&& b.status == Some(PreviewStatus::Unchanged) ==> b.caption@ == "无变化"@ + " "@
                    + crate::text::decimal(c.unchanged as nat)
                &&& b.status == Some(PreviewStatus::Conflict) ==> b.caption@ == "冲突"@ + " "@
                    + crate::text::decimal(c.conflict as nat)
                &&& b.status == Some(PreviewStatus::Error) ==> b.caption@ == "错误"@ + " "@
                    + crate::text::decimal(c.error as nat)
            },
        forall|i: int, j: int|
            0 <= i < j < bar.len() ==> bar_place((#[trigger] bar[i]).status) < bar_place(
                (#[trigger] bar[j]).status,
            ),
{
    reveal_with_fuel(bar_statuses, 6);
    let s = bar_statuses(c, 5);
    let s1 = bar_statuses(c, 1);
    let s2 = bar_statuses(c, 2);
    let s3 = bar_statuses(c, 3);
    let s4 = bar_statuses(c, 4);
    assert(s1 =~= seq![None::<PreviewStatus>]);
    assert forall|i: int| 0 <= i < bar.len() implies (#[trigger] bar[i]).status == s[i] by {
        assert(is_button(bar[i], s[i], c, current));
    }
    assert(bar[0].status == s[0]);
    if c.ready > 0 {
        assert(bar[1].status == s[1]);
    }
    if c.unchanged > 0 {
        let k = s2.len() as int;
        assert(bar[k].status == s[k]);
    }
    if c.conflict > 0 {
        let k = s3.len() as int;
        assert(bar[k].status == s[k]);
    }
    if c.error > 0 {
        let k = s4.len() as int;
        assert(bar[k].status == s[k]);
    }
}

/// The place of a status in the order of the filter bar.
pub open spec fn bar_place(status: Option<PreviewStatus>) -> int {
    match status {
        None => 0,
        Some(PreviewStatus::Ready) => 1,
        Some(PreviewStatus::Unchanged) => 2,
        Some(PreviewStatus::Conflict) => 3,
        Some(PreviewStatus::Error) => 4,
    }
}

/// Each status has a word of its own.
pub proof fn words_tell_statuses_apart(a: Option<PreviewStatus>, b: Option<PreviewStatus>)
    ensures
        bar_word(a) == bar_word(b) <==> a == b,
        bar_word(Some(PreviewStatus::Ready)) == "就绪"@,
        bar_word(Some(PreviewStatus::Unchanged)) == "无变化"@,
        bar_word(Some(PreviewStatus::Conflict)) == "冲突"@,
        bar_word(Some(PreviewStatus::Error)) == "错误"@,
        bar_word(None) == "全部"@,
{
    reveal_strlit("全部");
    reveal_strlit("就绪");
    reveal_strlit("无变化");
    reveal_strlit("冲突");
    reveal_strlit("错误");
    assert(bar_word(a)[0] == bar_word(b)[0] <==> a == b);
}

} // verus!
