//! The parent relation between paths, each path known by a number.
use vstd::prelude::*;

verus! {

/// The paths met so far. A path is the number that it got when it was registered; its parent got
/// a smaller one.
#[derive(Debug)]
pub struct PathTable {
    parents: Vec<Option<usize>>,
}

impl View for PathTable {
    type V = Seq<Option<usize>>;

    closed spec fn view(&self) -> Seq<Option<usize>> {
        self.parents@
    }
}

/// Whether every parent stands before its child.
pub open spec fn parents_first(parents: Seq<Option<usize>>) -> bool {
    forall|i: int| 0 <= i < parents.len() ==> (#[trigger] parents[i] matches Some(p) ==> p < i)
}

/// The parent of `p`, where it has one.
pub open spec fn parent_in(parents: Seq<Option<usize>>, p: usize) -> Option<usize> {
    if p < parents.len() {
        parents[p as int]
    } else {
        None
    }
}

/// Whether `a` is `p` or a directory somewhere above it.
pub open spec fn at_or_above(parents: Seq<Option<usize>>, a: usize, p: usize) -> bool
    decreases p,
{
    ||| a == p
    ||| match parent_in(parents, p) {
        Some(q) => q < p && at_or_above(parents, a, q),
        None => false,
    }
}

/// What is above a directory above `p` is above `p`.
pub proof fn above_is_transitive(parents: Seq<Option<usize>>, a: usize, b: usize, p: usize)
    requires
        at_or_above(parents, a, b),
        at_or_above(parents, b, p),
    ensures
        at_or_above(parents, a, p),
    decreases p,
{
    if b != p {
        above_is_transitive(parents, a, b, parent_in(parents, p)->0);
    }
}

impl PathTable {
    #[verifier::type_invariant]
    spec fn well_formed(&self) -> bool {
        parents_first(self.parents@)
    }

    /// A table without paths.
    pub fn new() -> (r: Self)
        ensures
            r@ == Seq::<Option<usize>>::empty(),
    {
        PathTable { parents: Vec::new() }
    }

    /// The number of paths.
    pub fn len(&self) -> (r: usize)
        ensures
            r == self@.len(),
            parents_first(self@),
    {
        proof {
            use_type_invariant(self);
        }
        self.parents.len()
    }

    /// Gives a number to a path whose parent is already registered or that has none.
    pub fn register(&mut self, parent: Option<usize>) -> (r: usize)
        requires
            parent matches Some(p) ==> p < old(self)@.len(),
        ensures
            r == old(self)@.len(),
            final(self)@ == old(self)@.push(parent),
    {
        proof {
            use_type_invariant(&*self);
        }
        let mut parents: Vec<Option<usize>> = Vec::new();
        std::mem::swap(&mut parents, &mut self.parents);
        let r: usize = parents.len();
        parents.push(parent);
        self.parents = parents;
        r
    }

    /// The parent of `p`, where it has one.
    pub fn parent(&self, p: usize) -> (r: Option<usize>)
        ensures
            r == parent_in(self@, p),
            p < self@.len() ==> r == self@[p as int],
            p >= self@.len() ==> r is None,
            r matches Some(q) ==> q < p,
    {
        proof {
            use_type_invariant(self);
        }
        if p < self.parents.len() {
            self.parents[p]
        } else {
            None
        }
    }
}

/// Whether each path of `chain` lies in the next one.
pub open spec fn leads_up(parents: Seq<Option<usize>>, chain: Seq<usize>) -> bool {
    forall|i: int|
        0 <= i < chain.len() - 1 ==> (#[trigger] chain[i]) < parents.len()
            && parents[chain[i] as int] == Some(chain[i + 1])
}

/// Whether `chain` leads from `p` up to `a`.
pub open spec fn leads_from_to(
    parents: Seq<Option<usize>>,
    chain: Seq<usize>,
    p: usize,
    a: usize,
) -> bool {
    &&& chain.len() > 0
    &&& chain[0] == p
    &&& chain.last() == a
    &&& leads_up(parents, chain)
}

/// A directory is at a path or above it exactly where going from the path to its parent, and on to
/// the parent of that, leads to it.
pub proof fn above_means_reached_by_parents(parents: Seq<Option<usize>>, a: usize, p: usize)
    requires
        parents_first(parents),
    ensures
        at_or_above(parents, a, p) <==> exists|chain: Seq<usize>| #[trigger]
            leads_from_to(parents, chain, p, a),
{
    if at_or_above(parents, a, p) {
        let chain = chain_up(parents, a, p);
        assert(leads_from_to(parents, chain, p, a));
    }
    if exists|chain: Seq<usize>| #[trigger] leads_from_to(parents, chain, p, a) {
        let chain = choose|chain: Seq<usize>| #[trigger] leads_from_to(parents, chain, p, a);
        chain_ends_above(parents, chain, p, a);
    }
}

/// The chain that leads from `p` up to `a`.
proof fn chain_up(parents: Seq<Option<usize>>, a: usize, p: usize) -> (chain: Seq<usize>)
    requires
        at_or_above(parents, a, p),
    ensures
        leads_from_to(parents, chain, p, a),
    decreases p,
{
    if a == p {
        seq![p]
    } else {
        let q = parent_in(parents, p)->0;
        let rest = chain_up(parents, a, q);
        let chain = seq![p] + rest;
        assert forall|i: int| 0 <= i < chain.len() - 1 implies (#[trigger] chain[i])
            < parents.len() && parents[chain[i] as int] == Some(chain[i + 1]) by {
            if i > 0 {
                assert(chain[i] == rest[i - 1]);
                assert(chain[i + 1] == rest[i]);
            }
        }
        chain
    }
}

/// Where a chain leads to is above where it begins.
proof fn chain_ends_above(parents: Seq<Option<usize>>, chain: Seq<usize>, p: usize, a: usize)
    requires
        parents_first(parents),
        leads_from_to(parents, chain, p, a),
    ensures
        at_or_above(parents, a, p),
    decreases chain.len(),
{
    if chain.len() > 1 {
        let rest = chain.drop_first();
        assert forall|i: int| 0 <= i < rest.len() - 1 implies (#[trigger] rest[i])
            < parents.len() && parents[rest[i] as int] == Some(rest[i + 1]) by {
            assert(rest[i] == chain[i + 1]);
        }
        assert(chain[0] == p);
        chain_ends_above(parents, rest, chain[1], a);
        assert(parents[p as int] == Some(chain[1]));
    }
}

} // verus!
