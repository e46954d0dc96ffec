//! A rename list: new names by original name, kept in the order of the original names.
use crate::text::chars_of;
use vstd::prelude::*;

verus! {

/// Whether `a` comes before `b` when texts are compared character by character.
pub open spec fn comes_before(a: Seq<char>, b: Seq<char>) -> bool
    decreases a.len(),
{
    if b.len() == 0 {
        false
    } else if a.len() == 0 {
        true
    } else if a[0] != b[0] {
        a[0] < b[0]
    } else {
        comes_before(a.drop_first(), b.drop_first())
    }
}

/// No text comes before itself.
pub proof fn order_is_irreflexive(a: Seq<char>)
    ensures
        !comes_before(a, a),
    decreases a.len(),
{
    if a.len() > 0 {
        order_is_irreflexive(a.drop_first());
    }
}

/// Of two different texts one comes before the other.
pub proof fn order_is_total(a: Seq<char>, b: Seq<char>)
    ensures
        a == b || comes_before(a, b) || comes_before(b, a),
    decreases a.len(),
{
    if a.len() == 0 && b.len() == 0 {
        assert(a =~= b);
    } else if a.len() > 0 && b.len() > 0 && a[0] == b[0] {
        order_is_total(a.drop_first(), b.drop_first());
        if a.drop_first() == b.drop_first() {
            assert(a =~= seq![a[0]] + a.drop_first());
            assert(b =~= seq![b[0]] + b.drop_first());
        }
    }
}

/// What comes before an earlier text comes before a later one.
pub proof fn order_is_transitive(a: Seq<char>, b: Seq<char>, c: Seq<char>)
    requires
        comes_before(a, b),
        comes_before(b, c),
    ensures
        comes_before(a, c),
    decreases a.len(),
{
    if a.len() > 0 && b.len() > 0 && c.len() > 0 && a[0] == b[0] && b[0] == c[0] {
        order_is_transitive(a.drop_first(), b.drop_first(), c.drop_first());
    }
}

/// The outcome of comparing two texts.
enum Place {
    Before,
    Same,
    After,
}

/// Compares `a` with `b`.
fn place_of(a: &str, b: &str) -> (r: Place)
    ensures
        match r {
            Place::Before => comes_before(a@, b@),
            Place::Same => a@ == b@,
            Place::After => comes_before(b@, a@),
        },
{
    let x = chars_of(a);
    let y = chars_of(b);
    let mut i: usize = 0;
    assert(x@.skip(0) =~= x@);
    assert(y@.skip(0) =~= y@);
    while i < x.len() && i < y.len() && x[i] == y[i]
        invariant
            0 <= i <= x@.len(),
            i <= y@.len(),
            x@.take(i as int) =~= y@.take(i as int),
            comes_before(x@, y@) == comes_before(x@.skip(i as int), y@.skip(i as int)),
            comes_before(y@, x@) == comes_before(y@.skip(i as int), x@.skip(i as int)),
        decreases x@.len() - i,
    {
        assert(x@.skip(i as int).drop_first() =~= x@.skip(i + 1));
        assert(y@.skip(i as int).drop_first() =~= y@.skip(i + 1));
        assert(x@.take(i + 1) =~= x@.take(i as int).push(x@[i as int]));
        assert(y@.take(i + 1) =~= y@.take(i as int).push(y@[i as int]));
        i = i + 1;
    }
    if i == x.len() && i == y.len() {
        assert(x@ =~= x@.take(i as int));
        assert(y@ =~= y@.take(i as int));
        Place::Same
    } else if i == x.len() {
        Place::Before
    } else if i == y.len() {
        Place::After
    } else if x[i] < y[i] {
        Place::Before
    } else {
        Place::After
    }
}

/// Whether each text comes before all later ones.
pub open spec fn ascending(keys: Seq<Seq<char>>) -> bool {
    forall|i: int, j: int|
        0 <= i < j < keys.len() ==> #[trigger] comes_before(keys[i], keys[j])
}

/// There is one ascending order of the same texts, so a mapping is always listed in the same order.
pub proof fn ascending_order_is_unique(a: Seq<Seq<char>>, b: Seq<Seq<char>>)
    requires
        ascending(a),
        ascending(b),
        forall|k: Seq<char>| a.contains(k) <==> b.contains(k),
    ensures
        a == b,
    decreases a.len(),
{
    if a.len() == 0 {
        if b.len() > 0 {
            assert(b.contains(b[0]));
        }
        assert(a =~= b);
    } else {
        assert(a.contains(a[0]));
        let la = a.last();
        let lb = b.last();
        assert(a.contains(la));
        let j = choose|j: int| 0 <= j < b.len() && b[j] == la;
        assert(b.contains(lb));
        let i = choose|i: int| 0 <= i < a.len() && a[i] == lb;
        if la != lb {
            assert(comes_before(b[j], b[b.len() - 1]));
            assert(comes_before(a[i], a[a.len() - 1]));
            order_is_transitive(la, lb, la);
            order_is_irreflexive(la);
        }
        let ra = a.drop_last();
        let rb = b.drop_last();
        assert(ascending(ra)) by {
            assert forall|x: int, y: int| 0 <= x < y < ra.len() implies #[trigger] comes_before(
                ra[x],
                ra[y],
            ) by {
                assert(comes_before(a[x], a[y]));
            }
        }
        assert(ascending(rb)) by {
            assert forall|x: int, y: int| 0 <= x < y < rb.len() implies #[trigger] comes_before(
                rb[x],
                rb[y],
            ) by {
                assert(comes_before(b[x], b[y]));
            }
        }
        assert forall|k: Seq<char>| ra.contains(k) <==> rb.contains(k) by {
            order_is_irreflexive(la);
            if ra.contains(k) {
                let x = choose|x: int| 0 <= x < ra.len() && ra[x] == k;
                assert(a[x] == k);
                assert(comes_before(a[x], a[a.len() - 1]));
                assert(b.contains(k));
                let y = choose|y: int| 0 <= y < b.len() && b[y] == k;
                assert(rb[y] == k);
            }
            if rb.contains(k) {
                let x = choose|x: int| 0 <= x < rb.len() && rb[x] == k;
                assert(b[x] == k);
                assert(comes_before(b[x], b[b.len() - 1]));
                assert(a.contains(k));
                let y = choose|y: int| 0 <= y < a.len() && a[y] == k;
                assert(ra[y] == k);
            }
        }
        ascending_order_is_unique(ra, rb);
        assert(a =~= ra.push(la));
        assert(b =~= rb.push(lb));
    }
}

/// A place at which the name `k` stands.
spec fn place_in(pairs: Seq<(String, String)>, k: Seq<char>) -> int {
    choose|i: int| 0 <= i < pairs.len() && #[trigger] pairs[i].0@ == k
}

/// The pairs read as a map.
spec fn pairs_map(pairs: Seq<(String, String)>) -> Map<Seq<char>, Seq<char>> {
    Map::new(
        |k: Seq<char>| exists|i: int| 0 <= i < pairs.len() && #[trigger] pairs[i].0@ == k,
        |k: Seq<char>| pairs[place_in(pairs, k)].1@,
    )
}

/// The original names of the pairs.
spec fn pairs_keys(pairs: Seq<(String, String)>) -> Seq<Seq<char>> {
    Seq::new(pairs.len(), |i: int| pairs[i].0@)
}

/// In ascending pairs a name is found at one place only.
proof fn key_is_unique(pairs: Seq<(String, String)>, i: int, j: int)
    requires
        ascending(pairs_keys(pairs)),
        0 <= i < pairs.len(),
        0 <= j < pairs.len(),
        pairs[i].0@ == pairs[j].0@,
    ensures
        i == j,
{
    let keys = pairs_keys(pairs);
    order_is_irreflexive(keys[i]);
    if i < j {
        assert(comes_before(keys[i], keys[j]));
    } else if j < i {
        assert(comes_before(keys[j], keys[i]));
    }
}

/// What the map holds under the name at index `i`.
proof fn map_at(pairs: Seq<(String, String)>, i: int)
    requires
        ascending(pairs_keys(pairs)),
        0 <= i < pairs.len(),
    ensures
        pairs_map(pairs).contains_key(pairs[i].0@),
        pairs_map(pairs)[pairs[i].0@] == pairs[i].1@,
{
    let k = pairs[i].0@;
    let j = place_in(pairs, k);
    key_is_unique(pairs, i, j);
}

/// Putting a new pair at its place adds it to the map.
proof fn insert_at_place(pairs: Seq<(String, String)>, at: int, from: String, to: String)
    requires
        ascending(pairs_keys(pairs)),
        0 <= at <= pairs.len(),
        forall|i: int| 0 <= i < at ==> comes_before(#[trigger] pairs[i].0@, from@),
        forall|i: int| at <= i < pairs.len() ==> comes_before(from@, #[trigger] pairs[i].0@),
    ensures
        ascending(pairs_keys(pairs.insert(at, (from, to)))),
        pairs_map(pairs.insert(at, (from, to))) == pairs_map(pairs).insert(from@, to@),
        !pairs_map(pairs).contains_key(from@),
{
    let longer = pairs.insert(at, (from, to));
    let keys = pairs_keys(longer);
    let before = pairs_keys(pairs);
    assert forall|i: int, j: int| 0 <= i < j < keys.len() implies #[trigger] comes_before(
        keys[i],
        keys[j],
    ) by {
        let pi = if i < at { i } else { i - 1 };
        let pj = if j < at { j } else { j - 1 };
        if i != at && j != at {
            assert(comes_before(before[pi], before[pj]));
        } else if i == at {
            assert(comes_before(from@, pairs[pj].0@));
        } else {
            assert(comes_before(pairs[pi].0@, from@));
        }
    }
    assert forall|i: int| 0 <= i < pairs.len() implies #[trigger] pairs[i].0@ != from@ by {
        order_is_irreflexive(from@);
    }
    let a = pairs_map(longer);
    let b = pairs_map(pairs).insert(from@, to@);
    assert forall|k: Seq<char>| a.contains_key(k) == b.contains_key(k) by {
        if a.contains_key(k) && k != from@ {
            let i = choose|i: int| 0 <= i < longer.len() && #[trigger] longer[i].0@ == k;
            assert(pairs[if i < at { i } else { i - 1 }].0@ == k);
        }
        if b.contains_key(k) {
            if k == from@ {
                assert(longer[at].0@ == k);
            } else {
                let i = choose|i: int| 0 <= i < pairs.len() && #[trigger] pairs[i].0@ == k;
                assert(longer[if i < at { i } else { i + 1 }].0@ == k);
            }
        }
    }
    assert forall|k: Seq<char>| b.contains_key(k) implies a[k] == b[k] by {
        if k == from@ {
            map_at(longer, at);
            assert(longer[at].0@ == from@);
        } else {
            let i = choose|i: int| 0 <= i < pairs.len() && #[trigger] pairs[i].0@ == k;
            let l = if i < at { i } else { i + 1 };
            assert(longer[l] == pairs[i]);
            map_at(longer, l);
            map_at(pairs, i);
        }
    }
    assert(a =~= b);
}

/// Replacing the pair of a name replaces what the map holds under it.
proof fn replace_at_place(pairs: Seq<(String, String)>, at: int, from: String, to: String)
    requires
        ascending(pairs_keys(pairs)),
        0 <= at < pairs.len(),
        pairs[at].0@ == from@,
    ensures
        ascending(pairs_keys(pairs.update(at, (from, to)))),
        pairs_map(pairs.update(at, (from, to))) == pairs_map(pairs).insert(from@, to@),
{
    let changed = pairs.update(at, (from, to));
    assert(pairs_keys(changed) =~= pairs_keys(pairs));
    let a = pairs_map(changed);
    let b = pairs_map(pairs).insert(from@, to@);
    assert forall|k: Seq<char>| a.contains_key(k) == b.contains_key(k) by {
        if a.contains_key(k) && k != from@ {
            let i = choose|i: int| 0 <= i < changed.len() && #[trigger] changed[i].0@ == k;
            assert(pairs[i].0@ == k);
        }
        if b.contains_key(k) {
            if k == from@ {
                assert(changed[at].0@ == k);
            } else {
                let i = choose|i: int| 0 <= i < pairs.len() && #[trigger] pairs[i].0@ == k;
                assert(changed[i].0@ == k);
            }
        }
    }
    assert forall|k: Seq<char>| b.contains_key(k) implies a[k] == b[k] by {
        if k == from@ {
            map_at(changed, at);
            assert(changed[at].0@ == from@);
        } else {
            let i = choose|i: int| 0 <= i < pairs.len() && #[trigger] pairs[i].0@ == k;
            assert(changed[i] == pairs[i]);
            map_at(changed, i);
            map_at(pairs, i);
        }
    }
    assert(a =~= b);
}

/// The map holds as many names as there are pairs.
proof fn map_size(pairs: Seq<(String, String)>)
    requires
        ascending(pairs_keys(pairs)),
    ensures
        pairs_map(pairs).dom().finite(),
        pairs_map(pairs).len() == pairs.len(),
{
    let keys = pairs_keys(pairs);
    assert(keys.no_duplicates()) by {
        assert forall|i: int, j: int| 0 <= i < keys.len() && 0 <= j < keys.len() && i != j implies keys[i]
            != keys[j] by {
            if keys[i] == keys[j] {
                key_is_unique(pairs, i, j);
            }
        }
    }
    keys.unique_seq_to_set();
    assert(pairs_map(pairs).dom() =~= keys.to_set()) by {
        assert forall|k: Seq<char>| pairs_map(pairs).contains_key(k) == keys.to_set().contains(k) by {
            if pairs_map(pairs).contains_key(k) {
                let i = choose|i: int| 0 <= i < pairs.len() && #[trigger] pairs[i].0@ == k;
                assert(keys[i] == k);
            }
            if keys.contains(k) {
                let i = choose|i: int| 0 <= i < keys.len() && keys[i] == k;
                assert(pairs[i].0@ == k);
            }
        }
    }
}

/// Copies the pairs.
fn copy_pairs(pairs: &Vec<(String, String)>) -> (r: Vec<(String, String)>)
    ensures
        r@ == pairs@,
{
    let mut r: Vec<(String, String)> = Vec::new();
    let mut i: usize = 0;
    while i < pairs.len()
        invariant
            0 <= i <= pairs@.len(),
            r@ == pairs@.take(i as int),
        decreases pairs@.len() - i,
    {
        r.push((pairs[i].0.clone(), pairs[i].1.clone()));
        assert(r@ =~= pairs@.take(i + 1));
        i = i + 1;
    }
    assert(r@ =~= pairs@);
    r
}

/// New names by original name. Each original name occurs once.
#[derive(Debug, PartialEq)]
pub struct NameMapping {
    pairs: Vec<(String, String)>,
}

impl View for NameMapping {
    type V = Map<Seq<char>, Seq<char>>;

    closed spec fn view(&self) -> Map<Seq<char>, Seq<char>> {
        pairs_map(self.pairs@)
    }
}

impl NameMapping {
    /// The original names, in order.
    pub closed spec fn keys(&self) -> Seq<Seq<char>> {
        pairs_keys(self.pairs@)
    }

    #[verifier::type_invariant]
    spec fn well_formed(&self) -> bool {
        ascending(pairs_keys(self.pairs@))
    }

    /// A mapping without names.
    pub fn new() -> (r: Self)
        ensures
            r@ == Map::<Seq<char>, Seq<char>>::empty(),
    {
        let r = NameMapping { pairs: Vec::new() };
        assert(r@ =~= Map::empty());
        r
    }

    /// The number of original names.
    pub fn len(&self) -> (r: usize)
        ensures
            r == self@.len(),
            self@.dom().finite(),
    {
        proof {
            use_type_invariant(self);
            map_size(self.pairs@);
        }
        self.pairs.len()
    }

    /// Whether no name is mapped.
    pub fn is_empty(&self) -> (r: bool)
        ensures
            r == (self@ == Map::<Seq<char>, Seq<char>>::empty()),
    {
        let r = self.pairs.len() == 0;
        proof {
            if self.pairs@.len() > 0 {
                assert(self.pairs@[0].0@ == self.pairs@[0].0@);
                assert(self@.contains_key(self.pairs@[0].0@));
            } else {
                assert(self@ =~= Map::empty());
            }
        }
        r
    }

    /// Maps `from` to `to`, in place of what `from` was mapped to before.
    pub fn insert(&mut self, from: String, to: String)
        ensures
            final(self)@ == old(self)@.insert(from@, to@),
    {
        proof {
            use_type_invariant(&*self);
        }
        let mut pairs: Vec<(String, String)> = Vec::new();
        std::mem::swap(&mut pairs, &mut self.pairs);
        let ghost before = pairs@;
        let mut lo: usize = 0;
        let mut hi: usize = pairs.len();
        while lo < hi
            invariant
                0 <= lo <= hi <= pairs@.len(),
                pairs@ == before,
                ascending(pairs_keys(before)),
                forall|i: int| 0 <= i < lo ==> comes_before(#[trigger] before[i].0@, from@),
                forall|i: int| hi <= i < before.len() ==> comes_before(
                    from@,
                    #[trigger] before[i].0@,
                ),
                self.pairs@.len() == 0,
                old(self)@ == pairs_map(before),
            decreases hi - lo,
        {
            let mid: usize = lo + (hi - lo) / 2;
            match place_of(pairs[mid].0.as_str(), from.as_str()) {
                Place::Before => {
                    assert forall|i: int| 0 <= i < mid + 1 implies comes_before(
                        #[trigger] before[i].0@,
                        from@,
                    ) by {
                        if i < mid {
                            let keys = pairs_keys(before);
                            assert(comes_before(keys[i], keys[mid as int]));
                            order_is_transitive(before[i].0@, before[mid as int].0@, from@);
                        }
                    }
                    lo = mid + 1;
                },
                Place::After => {
                    assert forall|i: int| mid <= i < before.len() implies comes_before(
                        from@,
                        #[trigger] before[i].0@,
                    ) by {
                        if i > mid {
                            let keys = pairs_keys(before);
                            assert(comes_before(keys[mid as int], keys[i]));
                            order_is_transitive(from@, before[mid as int].0@, before[i].0@);
                        }
                    }
                    hi = mid;
                },
                Place::Same => {
                    proof {
                        replace_at_place(before, mid as int, from, to);
                    }
                    pairs.set(mid, (from, to));
                    self.pairs = pairs;
                    return ;
                },
            }
        }
        proof {
            insert_at_place(before, lo as int, from, to);
        }
        pairs.insert(lo, (from, to));
        self.pairs = pairs;
    }

    /// The names with their new names, in the order of the original names.
    pub fn to_pairs(&self) -> (r: Vec<(String, String)>)
        ensures
            r@.len() == self@.len(),
            forall|i: int|
                0 <= i < r@.len() ==> self@.contains_key(#[trigger] r@[i].0@) && self@[r@[i].0@]
                    == r@[i].1@,
            forall|i: int, j: int|
                0 <= i < j < r@.len() ==> comes_before(#[trigger] r@[i].0@, #[trigger] r@[j].0@),
    {
        proof {
            use_type_invariant(self);
            map_size(self.pairs@);
            assert forall|i: int| 0 <= i < self.pairs@.len() implies self@.contains_key(
                #[trigger] self.pairs@[i].0@,
            ) && self@[self.pairs@[i].0@] == self.pairs@[i].1@ by {
                map_at(self.pairs@, i);
            }
            assert forall|i: int, j: int| 0 <= i < j < self.pairs@.len() implies comes_before(
                #[trigger] self.pairs@[i].0@,
                #[trigger] self.pairs@[j].0@,
            ) by {
                assert(comes_before(pairs_keys(self.pairs@)[i], pairs_keys(self.pairs@)[j]));
            }
        }
        copy_pairs(&self.pairs)
    }

    /// The lines that show the mapping, in the order of the original names.
    pub fn lines(&self) -> (r: Vec<String>)
        ensures
            ascending(self.keys()),
            forall|k: Seq<char>| self.keys().contains(k) <==> self@.contains_key(k),
            r@.len() == self.keys().len() == self@.len(),
            forall|i: int|
                0 <= i < r@.len() ==> #[trigger] r@[i]@ == self.keys()[i] + "  →  "@
                    + self@[self.keys()[i]],
    {
        proof {
            use_type_invariant(self);
            map_size(self.pairs@);
            assert forall|k: Seq<char>| self.keys().contains(k) <==> self@.contains_key(k) by {
                if self.keys().contains(k) {
                    let i = choose|i: int| 0 <= i < self.keys().len() && self.keys()[i] == k;
                    assert(self.pairs@[i].0@ == k);
                }
                if self@.contains_key(k) {
                    let i = choose|i: int|
                        0 <= i < self.pairs@.len() && #[trigger] self.pairs@[i].0@ == k;
                    assert(self.keys()[i] == k);
                }
            }
        }
        let mut r: Vec<String> = Vec::new();
        let mut i: usize = 0;
        while i < self.pairs.len()
            invariant
                0 <= i <= self.pairs@.len(),
                ascending(pairs_keys(self.pairs@)),
                r@.len() == i,
                forall|j: int|
                    0 <= j < r@.len() ==> #[trigger] r@[j]@ == self.keys()[j] + "  →  "@
                        + self@[self.keys()[j]],
            decreases self.pairs@.len() - i,
        {
            let mut line = self.pairs[i].0.clone();
            line.append("  →  ");
            line.append(self.pairs[i].1.as_str());
            proof {
                map_at(self.pairs@, i as int);
            }
            r.push(line);
            i = i + 1;
        }
        r
    }
}

impl Clone for NameMapping {
    fn clone(&self) -> (r: Self)
        ensures
            r@ == self@,
    {
        proof {
            use_type_invariant(self);
        }
        NameMapping { pairs: copy_pairs(&self.pairs) }
    }
}

/// Whether `a` and `b` agree in their first `n` characters and `a` ends there or has the smaller
/// character next.
pub open spec fn first_differs_at(a: Seq<char>, b: Seq<char>, n: int) -> bool {
    &&& 0 <= n <= a.len()
    &&& n < b.len()
    &&& forall|i: int| 0 <= i < n ==> #[trigger] a[i] == b[i]
    &&& n == a.len() || a[n] < b[n]
}

/// The first difference decides which of two texts comes first, and a text comes before those that
/// it begins.
pub proof fn first_difference_decides(a: Seq<char>, b: Seq<char>)
    ensures
        comes_before(a, b) <==> exists|n: int| #[trigger] first_differs_at(a, b, n),
    decreases a.len(),
{
    if a.len() > 0 && b.len() > 0 && a[0] == b[0] {
        let x = a.drop_first();
        let y = b.drop_first();
        first_difference_decides(x, y);
        if comes_before(a, b) {
            let n = choose|n: int| #[trigger] first_differs_at(x, y, n);
            assert forall|i: int| 0 <= i < n + 1 implies #[trigger] a[i] == b[i] by {
                if i > 0 {
                    assert(x[i - 1] == y[i - 1]);
                }
            }
            assert(first_differs_at(a, b, n + 1));
        }
        if exists|n: int| #[trigger] first_differs_at(a, b, n) {
            let n = choose|n: int| #[trigger] first_differs_at(a, b, n);
            assert forall|i: int| 0 <= i < n - 1 implies #[trigger] x[i] == y[i] by {
                assert(a[i + 1] == b[i + 1]);
            }
            assert(first_differs_at(x, y, n - 1));
        }
    } else {
        if comes_before(a, b) {
            assert(first_differs_at(a, b, 0));
        }
        if exists|n: int| #[trigger] first_differs_at(a, b, n) {
            let n = choose|n: int| #[trigger] first_differs_at(a, b, n);
            if n > 0 {
                assert(a[0] == b[0]);
            }
        }
    }
}

} // verus!
