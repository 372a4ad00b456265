//! Label sets: key-value pairs, unique by key and kept sorted by key.
use crate::order::{
    before, lemma_asymmetric, lemma_total, lemma_transitive, pair_before, rank, Rank,
};
use crate::text::str_eq;
use vstd::prelude::*;

verus! {

/// A sequence of label pairs.
pub type Pairs = Seq<(Seq<char>, Seq<char>)>;

/// The keys of `p` are strictly ascending.
pub open spec fn ascending(p: Pairs) -> bool {
    forall|i: int, j: int| 0 <= i < j < p.len() ==> before((#[trigger] p[i]).0, (#[trigger] p[j]).0)
}

/// Some pair of `p` has the key `k`.
pub open spec fn has_key(p: Pairs, k: Seq<char>) -> bool {
    exists|i: int| 0 <= i < p.len() && (#[trigger] p[i]).0 == k
}

/// The place of a pair of `p` with the key `k`.
pub open spec fn key_index(p: Pairs, k: Seq<char>) -> int {
    choose|i: int| 0 <= i < p.len() && (#[trigger] p[i]).0 == k
}

/// The map that the pairs of `p` make up.
pub open spec fn map_of(p: Pairs) -> Map<Seq<char>, Seq<char>> {
    Map::new(|k: Seq<char>| has_key(p, k), |k: Seq<char>| p[key_index(p, k)].1)
}

proof fn lemma_distinct(p: Pairs, i: int, j: int)
    requires
        ascending(p),
        0 <= i < p.len(),
        0 <= j < p.len(),
        p[i].0 == p[j].0,
    ensures
        i == j,
{
    lemma_asymmetric(p[i].0, p[j].0);
}

/// In a set with ascending keys, each pair is what the map gives for its key.
pub proof fn lemma_map_of(p: Pairs)
    requires
        ascending(p),
    ensures
        forall|k: Seq<char>| map_of(p).dom().contains(k) <==> has_key(p, k),
        forall|i: int| 0 <= i < p.len() ==> map_of(p)[(#[trigger] p[i]).0] == p[i].1,
{
    assert forall|i: int| 0 <= i < p.len() implies map_of(p)[(#[trigger] p[i]).0] == p[i].1 by {
        let k = p[i].0;
        assert(has_key(p, k));
        lemma_distinct(p, i, key_index(p, k));
    }
}

/// A set of labels has one sorted listing only: two listings with ascending
/// keys that make up the same map are the same.
pub proof fn lemma_listing_unique(p: Pairs, q: Pairs)
    requires
        ascending(p),
        ascending(q),
        map_of(p) == map_of(q),
    ensures
        p == q,
    decreases p.len(),
{
    lemma_map_of(p);
    lemma_map_of(q);
    if p.len() == 0 {
        if q.len() > 0 {
            assert(has_key(q, q[0].0));
            assert(map_of(q).dom().contains(q[0].0));
            assert(has_key(p, q[0].0));
        }
        assert(p =~= q);
    } else {
        assert(has_key(p, p.last().0)) by {
            assert(p[p.len() - 1].0 == p.last().0);
        }
        assert(map_of(p).dom().contains(p.last().0));
        assert(has_key(q, p.last().0));
        let j = choose|j: int| 0 <= j < q.len() && (#[trigger] q[j]).0 == p.last().0;
        if j < q.len() - 1 {
            // The last key of `q` would have to stand in `p` after the last key of `p`.
            assert(before(q[j].0, q[q.len() - 1].0));
            assert(has_key(q, q[q.len() - 1].0));
            assert(map_of(q).dom().contains(q[q.len() - 1].0));
            assert(has_key(p, q[q.len() - 1].0));
            let i = choose|i: int| 0 <= i < p.len() && (#[trigger] p[i]).0 == q[q.len() - 1].0;
            if i < p.len() - 1 {
                assert(before(p[i].0, p[p.len() - 1].0));
            }
            lemma_asymmetric(q[j].0, q[q.len() - 1].0);
            assert(false);
        }
        assert(map_of(p)[p[p.len() - 1].0] == p.last().1);
        assert(map_of(q)[q[j].0] == q[j].1);
        assert(p.last() == q.last());
        let p2 = p.drop_last();
        let q2 = q.drop_last();
        assert(ascending(p2)) by {
            assert forall|i: int, k: int| 0 <= i < k < p2.len() implies before(
                (#[trigger] p2[i]).0,
                (#[trigger] p2[k]).0,
            ) by {
                assert(before(p[i].0, p[k].0));
            }
        }
        assert(ascending(q2)) by {
            assert forall|i: int, k: int| 0 <= i < k < q2.len() implies before(
                (#[trigger] q2[i]).0,
                (#[trigger] q2[k]).0,
            ) by {
                assert(before(q[i].0, q[k].0));
            }
        }
        lemma_map_of(p2);
        lemma_map_of(q2);
        lemma_drop_last_map(p);
        lemma_drop_last_map(q);
        lemma_listing_unique(p2, q2);
        assert(p =~= p2.push(p.last()));
        assert(q =~= q2.push(q.last()));
    }
}

proof fn lemma_drop_last_map(p: Pairs)
    requires
        ascending(p),
        p.len() > 0,
    ensures
        map_of(p.drop_last()) == map_of(p).remove(p.last().0),
{
    let p2 = p.drop_last();
    assert(ascending(p2)) by {
        assert forall|i: int, k: int| 0 <= i < k < p2.len() implies before(
            (#[trigger] p2[i]).0,
            (#[trigger] p2[k]).0,
        ) by {
            assert(before(p[i].0, p[k].0));
        }
    }
    lemma_map_of(p);
    lemma_map_of(p2);
    let m = map_of(p).remove(p.last().0);
    assert forall|k: Seq<char>| map_of(p2).dom().contains(k) == m.dom().contains(k) by {
        if has_key(p2, k) {
            let i = choose|i: int| 0 <= i < p2.len() && (#[trigger] p2[i]).0 == k;
            assert(p[i].0 == k);
            if k == p.last().0 {
                lemma_distinct(p, i, p.len() - 1);
            }
        }
        if m.dom().contains(k) {
            let i = choose|i: int| 0 <= i < p.len() && (#[trigger] p[i]).0 == k;
            assert(i < p.len() - 1);
            assert(p2[i].0 == k);
        }
    }
    assert forall|k: Seq<char>| map_of(p2).dom().contains(k) implies map_of(p2)[k] == m[k] by {
        let i = choose|i: int| 0 <= i < p2.len() && (#[trigger] p2[i]).0 == k;
        assert(m.dom().contains(k));
        assert(p2[i].1 == map_of(p2)[p2[i].0]);
        assert(p[i].1 == map_of(p)[p[i].0]);
    }
    assert(map_of(p2) =~= m);
}

/// Whether the listing `p` sorts strictly before the listing `q`: pair by pair,
/// a proper prefix first.
pub open spec fn listing_before(p: Pairs, q: Pairs) -> bool
    decreases p.len(),
{
    if q.len() == 0 {
        false
    } else if p.len() == 0 {
        true
    } else if p[0] != q[0] {
        pair_before(p[0], q[0])
    } else {
        listing_before(p.skip(1), q.skip(1))
    }
}

/// No listing sorts before itself, and never do two sort before each other.
pub proof fn lemma_listing_asymmetric(p: Pairs, q: Pairs)
    ensures
        !(listing_before(p, q) && listing_before(q, p)),
        !listing_before(p, p),
    decreases p.len(),
{
    if p.len() > 0 {
        if q.len() > 0 {
            lemma_asymmetric(p[0].0, q[0].0);
            lemma_asymmetric(p[0].1, q[0].1);
            lemma_asymmetric(q[0].0, p[0].0);
            lemma_listing_asymmetric(p.skip(1), q.skip(1));
        }
        lemma_listing_asymmetric(p.skip(1), p.skip(1));
    }
}

/// The order of listings is transitive.
pub proof fn lemma_listing_transitive(p: Pairs, q: Pairs, r: Pairs)
    requires
        listing_before(p, q),
        listing_before(q, r),
    ensures
        listing_before(p, r),
    decreases p.len(),
{
    if p.len() > 0 {
        if p[0] == q[0] && q[0] == r[0] {
            lemma_listing_transitive(p.skip(1), q.skip(1), r.skip(1));
        } else if p[0] != q[0] && q[0] != r[0] {
            if before(p[0].0, q[0].0) && before(q[0].0, r[0].0) {
                lemma_transitive(p[0].0, q[0].0, r[0].0);
            } else if p[0].0 == q[0].0 && q[0].0 == r[0].0 {
                lemma_transitive(p[0].1, q[0].1, r[0].1);
            }
            assert(pair_before(p[0], r[0]));
            lemma_asymmetric(p[0].0, p[0].0);
            lemma_asymmetric(p[0].1, p[0].1);
        }
    }
}

/// The order of listings is total: one sorts before the other unless they are
/// equal.
pub proof fn lemma_listing_total(p: Pairs, q: Pairs)
    ensures
        listing_before(p, q) || listing_before(q, p) || p == q,
    decreases p.len(),
{
    if p.len() > 0 && q.len() > 0 {
        if p[0] == q[0] {
            lemma_listing_total(p.skip(1), q.skip(1));
            if p.skip(1) == q.skip(1) {
                assert(p =~= seq![p[0]] + p.skip(1));
                assert(q =~= seq![q[0]] + q.skip(1));
            }
        } else {
            lemma_total(p[0].0, q[0].0);
            lemma_total(p[0].1, q[0].1);
        }
    } else if p.len() == 0 && q.len() == 0 {
        assert(p =~= q);
    }
}

/// The map of a label set without labels.
pub open spec fn no_labels() -> Map<Seq<char>, Seq<char>> {
    Map::empty()
}

/// A set of labels.
#[derive(Debug, PartialEq, Eq)]
pub struct Labels {
    entries: Vec<(String, String)>,
}

/// The views of the entries of a label set.
pub open spec fn entry_views(v: Seq<(String, String)>) -> Pairs {
    v.map_values(|e: (String, String)| (e.0@, e.1@))
}

impl Labels {
    /// The label pairs in ascending order of their keys.
    pub closed spec fn pairs(&self) -> Pairs {
        entry_views(self.entries@)
    }

    #[verifier::type_invariant]
    spec fn sorted(&self) -> bool {
        ascending(entry_views(self.entries@))
    }
}

impl View for Labels {
    type V = Map<Seq<char>, Seq<char>>;

    open spec fn view(&self) -> Map<Seq<char>, Seq<char>> {
        map_of(self.pairs())
    }
}

impl Clone for Labels {
    fn clone(&self) -> (r: Self)
        ensures
            r.pairs() == self.pairs(),
            r@ == self@,
            ascending(r.pairs()),
    {
        proof {
            use_type_invariant(self);
        }
        let mut entries: Vec<(String, String)> = Vec::new();
        let mut i: usize = 0;
        while i < self.entries.len()
            invariant
                i <= self.entries.len(),
                entry_views(entries@) == entry_views(self.entries@).take(i as int),
            decreases self.entries.len() - i,
        {
            let e = &self.entries[i];
            let ghost done = entries@;
            entries.push((e.0.clone(), e.1.clone()));
            proof {
                assert(entry_views(entries@) =~= entry_views(done).push((e.0@, e.1@)));
                assert(entry_views(self.entries@).take(i as int + 1) =~= entry_views(
                    self.entries@,
                ).take(i as int).push((e.0@, e.1@)));
            }
            i += 1;
        }
        proof {
            assert(entry_views(entries@) =~= entry_views(self.entries@));
        }
        Labels { entries }
    }
}

impl Labels {
    /// The empty set.
    pub fn new() -> (r: Self)
        ensures
            r.pairs() == Seq::<(Seq<char>, Seq<char>)>::empty(),
            r@ == Map::<Seq<char>, Seq<char>>::empty(),
            ascending(r.pairs()),
    {
        let r = Labels { entries: Vec::new() };
        proof {
            assert(r.pairs() =~= Seq::empty());
            assert(map_of(r.pairs()) =~= Map::empty());
        }
        r
    }

    /// Number of labels.
    pub fn len(&self) -> (r: usize)
        ensures
            r == self.pairs().len(),
    {
        self.entries.len()
    }

    /// Whether the set is empty.
    pub fn is_empty(&self) -> (r: bool)
        ensures
            r == (self.pairs().len() == 0),
    {
        self.entries.len() == 0
    }

    /// The key of the `i`-th pair.
    pub fn key_at(&self, i: usize) -> (r: &str)
        requires
            i < self.pairs().len(),
        ensures
            r@ == self.pairs()[i as int].0,
    {
        self.entries[i].0.as_str()
    }

    /// The value of the `i`-th pair.
    pub fn value_at(&self, i: usize) -> (r: &str)
        requires
            i < self.pairs().len(),
        ensures
            r@ == self.pairs()[i as int].1,
    {
        self.entries[i].1.as_str()
    }

    /// Whether the set sorts strictly before another.
    pub fn sorts_before(&self, other: &Labels) -> (r: bool)
        ensures
            r == listing_before(self.pairs(), other.pairs()),
    {
        let ghost p = self.pairs();
        let ghost q = other.pairs();
        let mut i: usize = 0;
        proof {
            assert(p.skip(0) =~= p);
            assert(q.skip(0) =~= q);
        }
        while i < self.entries.len() && i < other.entries.len()
            invariant
                p == self.pairs(),
                q == other.pairs(),
                i <= p.len(),
                i <= q.len(),
                p.len() == self.entries@.len(),
                q.len() == other.entries@.len(),
                listing_before(p, q) == listing_before(p.skip(i as int), q.skip(i as int)),
            decreases self.entries.len() - i,
        {
            proof {
                assert(p.skip(i as int).skip(1) =~= p.skip(i as int + 1));
                assert(q.skip(i as int).skip(1) =~= q.skip(i as int + 1));
                lemma_asymmetric(p[i as int].0, q[i as int].0);
                lemma_asymmetric(p[i as int].1, q[i as int].1);
                lemma_asymmetric(q[i as int].0, p[i as int].0);
                lemma_asymmetric(q[i as int].1, p[i as int].1);
            }
            match rank(self.entries[i].0.as_str(), other.entries[i].0.as_str()) {
                Rank::Before => {
                    return true;
                },
                Rank::After => {
                    return false;
                },
                Rank::Same => {},
            }
            match rank(self.entries[i].1.as_str(), other.entries[i].1.as_str()) {
                Rank::Before => {
                    return true;
                },
                Rank::After => {
                    return false;
                },
                Rank::Same => {},
            }
            i += 1;
        }
        i < other.entries.len()
    }

    /// The value for `key`, if the set has one.
    pub fn get(&self, key: &str) -> (r: Option<&String>)
        ensures
            r is Some <==> self@.dom().contains(key@),
            r matches Some(v) ==> v@ == self@[key@],
    {
        proof {
            use_type_invariant(self);
            lemma_map_of(self.pairs());
        }
        let mut i: usize = 0;
        while i < self.entries.len()
            invariant
                i <= self.entries.len(),
                forall|j: int| 0 <= j < i ==> (#[trigger] self.pairs()[j]).0 != key@,
                forall|k: Seq<char>| self@.dom().contains(k) <==> has_key(self.pairs(), k),
                forall|j: int| #![trigger self.pairs()[j]]
                    0 <= j < self.pairs().len() ==> self@[self.pairs()[j].0] == self.pairs()[j].1,
            decreases self.entries.len() - i,
        {
            proof {
                assert(self.pairs()[i as int] == (self.entries@[i as int].0@, self.entries@[i as int].1@));
            }
            if str_eq(self.entries[i].0.as_str(), key) {
                return Some(&self.entries[i].1);
            }
            i += 1;
        }
        None
    }

    /// Whether the set has the label `key`.
    pub fn contains_key(&self, key: &str) -> (r: bool)
        ensures
            r == self@.dom().contains(key@),
    {
        self.get(key).is_some()
    }

    /// The set with `key` set to `value`.
    pub fn with(self, key: &str, value: &str) -> (r: Self)
        ensures
            r@ == self@.insert(key@, value@),
            ascending(r.pairs()),
    {
        let mut r = self;
        r.insert(key.to_owned(), value.to_owned());
        r
    }

    /// Sets the label `key` to `value`.
    pub fn insert(&mut self, key: String, value: String)
        ensures
            final(self)@ == old(self)@.insert(key@, value@),
            ascending(final(self).pairs()),
    {
        proof {
            use_type_invariant(&*self);
        }
        let ghost k = key@;
        let ghost v = value@;
        let mut entries: Vec<(String, String)> = Vec::new();
        std::mem::swap(&mut entries, &mut self.entries);
        let ghost p = entry_views(entries@);
        let mut i: usize = 0;
        let mut found = false;
        while i < entries.len()
            invariant_except_break
                !found,
                i <= entries.len(),
                p == entry_views(entries@),
                forall|j: int| 0 <= j < i ==> before((#[trigger] p[j]).0, k),
                key@ == k,
            ensures
                i <= entries.len(),
                p == entry_views(entries@),
                key@ == k,
                forall|j: int| 0 <= j < i ==> before((#[trigger] p[j]).0, k),
                found ==> i < entries.len() && p[i as int].0 == k,
                !found && i < entries.len() ==> before(k, p[i as int].0),
            decreases entries.len() - i,
        {
            proof {
                assert(p[i as int] == (entries@[i as int].0@, entries@[i as int].1@));
            }
            match rank(entries[i].0.as_str(), key.as_str()) {
                Rank::Before => {
                    i += 1;
                },
                Rank::Same => {
                    found = true;
                    break;
                },
                Rank::After => {
                    break;
                },
            }
        }
        if found {
            entries.remove(i);
        }
        entries.insert(i, (key, value));
        let ghost q = entry_views(entries@);
        proof {
            if found {
                assert(q =~= p.update(i as int, (k, v)));
            } else {
                assert(q =~= p.insert(i as int, (k, v)));
            }
            lemma_inserted(p, q, i as int, found, k, v);
        }
        self.entries = entries;
    }
}

proof fn lemma_inserted(p: Pairs, q: Pairs, i: int, found: bool, k: Seq<char>, v: Seq<char>)
    requires
        ascending(p),
        0 <= i <= p.len(),
        found ==> i < p.len() && p[i].0 == k && q == p.update(i, (k, v)),
        !found ==> q == p.insert(i, (k, v)),
        forall|j: int| 0 <= j < i ==> before((#[trigger] p[j]).0, k),
        !found && i < p.len() ==> before(k, p[i].0),
    ensures
        ascending(q),
        map_of(q) == map_of(p).insert(k, v),
{
    assert forall|a: int, b: int| 0 <= a < b < q.len() implies before((#[trigger] q[a]).0, (#[trigger] q[b]).0) by {
        if found {
            assert(q[a].0 == p[a].0 && q[b].0 == p[b].0);
        } else if b < i {
            assert(q[a] == p[a] && q[b] == p[b]);
        } else if b == i {
            assert(q[a] == p[a]);
        } else {
            assert(q[b] == p[b - 1]);
            if a > i {
                assert(q[a] == p[a - 1]);
            } else {
                if i < b - 1 {
                    assert(before(p[i].0, p[b - 1].0));
                    lemma_transitive(k, p[i].0, p[b - 1].0);
                }
                if a < i {
                    assert(q[a] == p[a]);
                }
            }
        }
    }
    lemma_map_of(p);
    lemma_map_of(q);
    let m = map_of(p).insert(k, v);
    assert(q[i] == (k, v));
    assert forall|x: Seq<char>| map_of(q).dom().contains(x) == m.dom().contains(x) by {
        if has_key(q, x) {
            let a = choose|a: int| 0 <= a < q.len() && (#[trigger] q[a]).0 == x;
            if a < i {
                assert(p[a].0 == x);
            } else if a > i {
                let b = if found { a } else { a - 1 };
                assert(p[b].0 == x);
            }
        }
        if has_key(p, x) {
            let a = choose|a: int| 0 <= a < p.len() && (#[trigger] p[a]).0 == x;
            let b = if found || a < i { a } else { a + 1 };
            assert(q[b].0 == x);
        }
        if x == k {
            assert(has_key(q, x));
        }
    }
    assert forall|x: Seq<char>| map_of(q).dom().contains(x) implies map_of(q)[x] == m[x] by {
        let a = choose|a: int| 0 <= a < q.len() && (#[trigger] q[a]).0 == x;
        assert(map_of(q)[q[a].0] == q[a].1);
        if a == i {
        } else {
            let b = if found || a < i { a } else { a - 1 };
            assert(p[b] == q[a]);
            assert(map_of(p)[p[b].0] == p[b].1);
            if x == k {
                lemma_distinct(q, a, i);
            }
        }
    }
    assert(map_of(q) =~= m);
}

/// Label sets are in the order of the first label in which they differ, and one
/// that runs out first comes first.
pub proof fn law_listing_order(
    common: Pairs,
    x: (Seq<char>, Seq<char>),
    y: (Seq<char>, Seq<char>),
    left: Pairs,
    right: Pairs,
)
    ensures
        x != y ==> listing_before(common + seq![x] + left, common + seq![y] + right)
            == pair_before(x, y),
        listing_before(common, common + seq![y] + right),
    decreases common.len(),
{
    let p = common + seq![x] + left;
    let q = common + seq![y] + right;
    if common.len() == 0 {
        assert(p[0] == x && q[0] == y);
    } else {
        assert(p[0] == common[0] && q[0] == common[0]);
        law_listing_order(common.skip(1), x, y, left, right);
        assert(p.skip(1) =~= common.skip(1) + seq![x] + left);
        assert(q.skip(1) =~= common.skip(1) + seq![y] + right);
    }
}

/// The pairs that are written are the labels: every label stands among them with
/// its value, and nothing else does.
pub proof fn law_pairs_are_labels(l: Labels, k: Seq<char>)
    requires
        ascending(l.pairs()),
    ensures
        l@.contains_key(k) <==> has_key(l.pairs(), k),
        forall|i: int| 0 <= i < l.pairs().len() ==> l@[(#[trigger] l.pairs()[i]).0] == l.pairs()[i].1,
{
    lemma_map_of(l.pairs());
}

} // verus!
