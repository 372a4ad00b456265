//! Counting by label pair, in the order of the labels.
use crate::order::{
    before, lemma_asymmetric, lemma_total, lemma_transitive, pair_before, rank, Rank,
};
use crate::labels::{no_labels, Labels};
use crate::metric::{
    gauge_view, is_gauge, push_gauge, reads, views, whole, GaugeValue, MetricSample, SampleView,
};
use crate::text::str_eq;
use vstd::prelude::*;

verus! {

/// What is counted: a pair of labels.
pub type Key = (Seq<char>, Seq<char>);

/// `t` with one more `k`: its count raised, or a new entry in its place in the order.
pub open spec fn bump(t: Seq<(Key, nat)>, k: Key) -> Seq<(Key, nat)>
    decreases t.len(),
{
    if t.len() == 0 {
        seq![(k, 1nat)]
    } else if t[0].0 == k {
        seq![(k, t[0].1 + 1)] + t.skip(1)
    } else if pair_before(t[0].0, k) {
        seq![t[0]] + bump(t.skip(1), k)
    } else {
        seq![(k, 1nat)] + t
    }
}

/// How often each key occurs in `keys`, sorted by key.
pub open spec fn tally(keys: Seq<Key>) -> Seq<(Key, nat)>
    decreases keys.len(),
{
    if keys.len() == 0 {
        seq![]
    } else {
        bump(tally(keys.drop_last()), keys.last())
    }
}

/// The count of `k` in `t`; zero without an entry.
pub open spec fn count_of(t: Seq<(Key, nat)>, k: Key) -> nat
    decreases t.len(),
{
    if t.len() == 0 {
        0
    } else if t[0].0 == k {
        t[0].1
    } else {
        count_of(t.skip(1), k)
    }
}

/// The number of occurrences of `k` in `keys`.
pub open spec fn occurrences(keys: Seq<Key>, k: Key) -> nat
    decreases keys.len(),
{
    if keys.len() == 0 {
        0
    } else {
        occurrences(keys.drop_last(), k) + if keys.last() == k {
            1nat
        } else {
            0nat
        }
    }
}

/// The sum of all counts.
pub open spec fn total(t: Seq<(Key, nat)>) -> nat
    decreases t.len(),
{
    if t.len() == 0 {
        0
    } else {
        t[0].1 + total(t.skip(1))
    }
}

/// The keys of `t` are strictly ascending.
pub open spec fn keys_ascend(t: Seq<(Key, nat)>) -> bool {
    forall|i: int, j: int|
        0 <= i < j < t.len() ==> pair_before((#[trigger] t[i]).0, (#[trigger] t[j]).0)
}

pub proof fn lemma_pair_total(a: Key, b: Key)
    ensures
        pair_before(a, b) || pair_before(b, a) || a == b,
        !(pair_before(a, b) && pair_before(b, a)),
        !pair_before(a, a),
{
    lemma_total(a.0, b.0);
    lemma_total(a.1, b.1);
    lemma_asymmetric(a.0, b.0);
    lemma_asymmetric(a.1, b.1);
}

pub proof fn lemma_pair_transitive(a: Key, b: Key, c: Key)
    requires
        pair_before(a, b),
        pair_before(b, c),
    ensures
        pair_before(a, c),
{
    if before(a.0, b.0) && before(b.0, c.0) {
        lemma_transitive(a.0, b.0, c.0);
    } else if a.0 == b.0 && b.0 == c.0 {
        lemma_transitive(a.1, b.1, c.1);
    }
}

proof fn lemma_bump_ascends(t: Seq<(Key, nat)>, k: Key)
    requires
        keys_ascend(t),
    ensures
        keys_ascend(bump(t, k)),
        forall|x: Key|
            (forall|i: int| 0 <= i < t.len() ==> pair_before(x, (#[trigger] t[i]).0)) && pair_before(x, k)
                ==> (forall|i: int|
                0 <= i < bump(t, k).len() ==> pair_before(x, (#[trigger] bump(t, k)[i]).0)),
    decreases t.len(),
{
    if t.len() == 0 {
    } else {
        let rest = t.skip(1);
        assert(keys_ascend(rest)) by {
            assert forall|i: int, j: int| 0 <= i < j < rest.len() implies pair_before(
                (#[trigger] rest[i]).0,
                (#[trigger] rest[j]).0,
            ) by {
                assert(pair_before(t[i + 1].0, t[j + 1].0));
            }
        }
        lemma_bump_ascends(rest, k);
        lemma_pair_total(t[0].0, k);
        let b = bump(t, k);
        assert forall|i: int, j: int| 0 <= i < j < b.len() implies pair_before(
            (#[trigger] b[i]).0,
            (#[trigger] b[j]).0,
        ) by {
            if t[0].0 == k {
                assert(b[i].0 == t[i].0);
                assert(b[j].0 == t[j].0);
            } else if pair_before(t[0].0, k) {
                if i == 0 {
                    assert forall|m: int| 0 <= m < rest.len() implies pair_before(
                        t[0].0,
                        (#[trigger] rest[m]).0,
                    ) by {
                        assert(rest[m] == t[m + 1]);
                    }
                    assert(b[j] == bump(rest, k)[j - 1]);
                } else {
                    assert(b[i] == bump(rest, k)[i - 1]);
                    assert(b[j] == bump(rest, k)[j - 1]);
                }
            } else {
                assert(b[j] == t[j - 1]);
                if i == 0 {
                    if j > 1 {
                        assert(pair_before(t[0].0, t[j - 1].0));
                        lemma_pair_transitive(k, t[0].0, t[j - 1].0);
                    }
                } else {
                    assert(b[i] == t[i - 1]);
                }
            }
        }
        assert forall|x: Key|
            (forall|i: int| 0 <= i < t.len() ==> pair_before(x, (#[trigger] t[i]).0)) && pair_before(
                x,
                k,
            ) implies (forall|i: int|
            0 <= i < b.len() ==> pair_before(x, (#[trigger] b[i]).0)) by {
            assert forall|i: int| 0 <= i < rest.len() implies pair_before(x, (#[trigger] rest[i]).0) by {
                assert(rest[i] == t[i + 1]);
            }
            assert forall|i: int| 0 <= i < b.len() implies pair_before(x, (#[trigger] b[i]).0) by {
                if t[0].0 == k {
                    assert(b[i].0 == t[i].0);
                } else if pair_before(t[0].0, k) {
                    if i == 0 {
                        assert(b[0] == t[0]);
                    } else {
                        assert(b[i] == bump(rest, k)[i - 1]);
                    }
                } else if i > 0 {
                    assert(b[i] == t[i - 1]);
                }
            }
        }
    }
}

proof fn lemma_absent(t: Seq<(Key, nat)>, k: Key)
    requires
        forall|i: int| 0 <= i < t.len() ==> (#[trigger] t[i]).0 != k,
    ensures
        count_of(t, k) == 0,
    decreases t.len(),
{
    if t.len() > 0 {
        let rest = t.skip(1);
        assert forall|i: int| 0 <= i < rest.len() implies (#[trigger] rest[i]).0 != k by {
            assert(rest[i] == t[i + 1]);
        }
        lemma_absent(rest, k);
    }
}

proof fn lemma_bump_counts(t: Seq<(Key, nat)>, k: Key, x: Key)
    requires
        keys_ascend(t),
    ensures
        count_of(bump(t, k), x) == count_of(t, x) + (if x == k { 1nat } else { 0nat }),
    decreases t.len(),
{
    let b = bump(t, k);
    if t.len() == 0 {
        assert(b.skip(1) =~= seq![]);
        assert(count_of(b.skip(1), x) == 0);
    } else {
        let rest = t.skip(1);
        assert(keys_ascend(rest)) by {
            assert forall|i: int, j: int| 0 <= i < j < rest.len() implies pair_before(
                (#[trigger] rest[i]).0,
                (#[trigger] rest[j]).0,
            ) by {
                assert(pair_before(t[i + 1].0, t[j + 1].0));
            }
        }
        lemma_bump_counts(rest, k, x);
        if t[0].0 == k {
            assert(b.skip(1) =~= rest);
        } else if pair_before(t[0].0, k) {
            assert(b.skip(1) =~= bump(rest, k));
        } else {
            assert(b.skip(1) =~= t);
            if x == k {
                lemma_pair_total(t[0].0, k);
                assert forall|i: int| 0 <= i < t.len() implies (#[trigger] t[i]).0 != k by {
                    if i > 0 {
                        assert(pair_before(t[0].0, t[i].0));
                        lemma_pair_total(t[0].0, t[i].0);
                    }
                }
                lemma_absent(t, k);
            }
        }
    }
}

proof fn lemma_bump_total(t: Seq<(Key, nat)>, k: Key)
    ensures
        total(bump(t, k)) == total(t) + 1,
    decreases t.len(),
{
    let b = bump(t, k);
    if t.len() == 0 {
        assert(b.skip(1) =~= seq![]);
        assert(total(b.skip(1)) == 0);
    } else {
        lemma_bump_total(t.skip(1), k);
        if t[0].0 == k {
            assert(b.skip(1) =~= t.skip(1));
        } else if pair_before(t[0].0, k) {
            assert(b.skip(1) =~= bump(t.skip(1), k));
        } else {
            assert(b.skip(1) =~= t);
        }
    }
}

/// A tally lists each key once, in strictly ascending order.
pub proof fn law_tally_sorted(keys: Seq<Key>)
    ensures
        keys_ascend(tally(keys)),
    decreases keys.len(),
{
    if keys.len() > 0 {
        law_tally_sorted(keys.drop_last());
        lemma_bump_ascends(tally(keys.drop_last()), keys.last());
    }
}

/// The count of a key is the number of its occurrences.
pub proof fn law_tally_counts(keys: Seq<Key>, k: Key)
    ensures
        count_of(tally(keys), k) == occurrences(keys, k),
    decreases keys.len(),
{
    if keys.len() > 0 {
        law_tally_counts(keys.drop_last(), k);
        law_tally_sorted(keys.drop_last());
        lemma_bump_counts(tally(keys.drop_last()), keys.last(), k);
    }
}

/// Nothing is counted twice and nothing is lost: the counts add up to the
/// number of counted keys.
pub proof fn law_tally_total(keys: Seq<Key>)
    ensures
        total(tally(keys)) == keys.len(),
    decreases keys.len(),
{
    if keys.len() > 0 {
        law_tally_total(keys.drop_last());
        lemma_bump_total(tally(keys.drop_last()), keys.last());
    }
}

proof fn lemma_count_at_most_total(t: Seq<(Key, nat)>, i: int)
    requires
        0 <= i < t.len(),
    ensures
        t[i].1 <= total(t),
    decreases t.len(),
{
    if i > 0 {
        lemma_count_at_most_total(t.skip(1), i - 1);
    }
}

/// One entry of a tally.
#[derive(Debug)]
pub struct Count {
    /// First label.
    pub first: String,
    /// Second label.
    pub second: String,
    /// Number of occurrences.
    pub count: u64,
}

impl Count {
    /// The labels of the entry.
    pub open spec fn key(&self) -> Key {
        (self.first@, self.second@)
    }
}

/// The entries of a tally as mathematical values.
pub open spec fn count_views(v: Seq<Count>) -> Seq<(Key, nat)> {
    v.map_values(|c: Count| (c.key(), c.count as nat))
}

/// Counts label pairs.
#[derive(Debug)]
pub struct Tally {
    /// The entries, sorted by their labels.
    pub entries: Vec<Count>,
}

impl View for Tally {
    type V = Seq<(Key, nat)>;

    open spec fn view(&self) -> Seq<(Key, nat)> {
        count_views(self.entries@)
    }
}

proof fn lemma_bump_at(t: Seq<(Key, nat)>, k: Key, i: int)
    requires
        0 <= i <= t.len(),
        forall|j: int| 0 <= j < i ==> pair_before((#[trigger] t[j]).0, k),
    ensures
        i < t.len() && t[i].0 == k ==> bump(t, k) == t.update(i, (k, t[i].1 + 1)),
        (i < t.len() ==> t[i].0 != k && !pair_before(t[i].0, k)) ==> bump(t, k) == t.insert(
            i,
            (k, 1nat),
        ),
    decreases i,
{
    if i == 0 {
        if t.len() > 0 && t[0].0 == k {
            assert(bump(t, k) =~= t.update(0, (k, t[0].1 + 1)));
        } else {
            assert(bump(t, k) =~= t.insert(0, (k, 1nat)) || (t.len() > 0 && pair_before(t[0].0, k)));
        }
    } else {
        let rest = t.skip(1);
        lemma_pair_total(t[0].0, k);
        assert(pair_before(t[0].0, k));
        assert forall|j: int| 0 <= j < i - 1 implies pair_before((#[trigger] rest[j]).0, k) by {
            assert(rest[j] == t[j + 1]);
        }
        lemma_bump_at(rest, k, i - 1);
        if i < t.len() {
            assert(rest[i - 1] == t[i]);
            if t[i].0 == k {
                assert(seq![t[0]] + rest.update(i - 1, (k, t[i].1 + 1)) =~= t.update(i, (k, t[i].1 + 1)));
            }
        }
        assert(seq![t[0]] + rest.insert(i - 1, (k, 1nat)) =~= t.insert(i, (k, 1nat)));
    }
}

impl Tally {
    /// An empty tally.
    pub fn new() -> (r: Self)
        ensures
            r@ == Seq::<(Key, nat)>::empty(),
    {
        let r = Tally { entries: Vec::new() };
        proof {
            assert(r@ =~= Seq::empty());
        }
        r
    }

    /// Counts one more occurrence of a label pair.
    pub fn add(&mut self, first: &str, second: &str)
        requires
            total(old(self)@) < u64::MAX,
        ensures
            final(self)@ == bump(old(self)@, (first@, second@)),
    {
        let ghost k: Key = (first@, second@);
        let ghost t = self@;
        let mut i: usize = 0;
        let mut found = false;
        while i < self.entries.len()
            invariant_except_break
                !found,
            invariant
                i <= self.entries.len(),
                self@ == t,
                k == (first@, second@),
                forall|j: int| 0 <= j < i ==> pair_before((#[trigger] t[j]).0, k),
            ensures
                found ==> i < t.len() && t[i as int].0 == k,
                !found && i < t.len() ==> t[i as int].0 != k && !pair_before(t[i as int].0, k),
            decreases self.entries.len() - i,
        {
            let c = &self.entries[i];
            proof {
                assert(t[i as int].0 == c.key());
                lemma_pair_total(c.key(), k);
                lemma_asymmetric(c.first@, first@);
                lemma_asymmetric(c.second@, second@);
            }
            match rank(c.first.as_str(), first) {
                Rank::Before => {
                    i += 1;
                },
                Rank::After => {
                    break;
                },
                Rank::Same => match rank(c.second.as_str(), second) {
                    Rank::Before => {
                        i += 1;
                    },
                    Rank::After => {
                        break;
                    },
                    Rank::Same => {
                        found = true;
                        break;
                    },
                },
            }
        }
        proof {
            lemma_bump_at(t, k, i as int);
        }
        if found {
            proof {
                lemma_count_at_most_total(t, i as int);
                assert(t[i as int].1 == self.entries@[i as int].count);
            }
            let count: u64 = self.entries[i].count + 1;
            self.entries.set(
                i,
                Count { first: first.to_owned(), second: second.to_owned(), count },
            );
            proof {
                assert(self@ =~= t.update(i as int, (k, t[i as int].1 + 1)));
            }
        } else {
            self.entries.insert(
                i,
                Count { first: first.to_owned(), second: second.to_owned(), count: 1 },
            );
            proof {
                assert(self@ =~= t.insert(i as int, (k, 1nat)));
            }
        }
    }

    /// The count of a label pair; zero when it does not occur.
    pub fn get(&self, first: &str, second: &str) -> (r: u64)
        ensures
            r == count_of(self@, (first@, second@)),
    {
        let ghost k: Key = (first@, second@);
        let mut i: usize = 0;
        proof {
            assert(self@.skip(0) =~= self@);
        }
        while i < self.entries.len()
            invariant
                i <= self.entries.len(),
                k == (first@, second@),
                count_of(self@, k) == count_of(self@.skip(i as int), k),
            decreases self.entries.len() - i,
        {
            let c = &self.entries[i];
            proof {
                assert(self@.skip(i as int)[0] == (c.key(), c.count as nat));
                assert(self@.skip(i as int).skip(1) =~= self@.skip(i as int + 1));
            }
            if str_eq(c.first.as_str(), first) && str_eq(c.second.as_str(), second) {
                return c.count;
            }
            i += 1;
        }
        0
    }
}

/// One gauge for each entry of a tally, labelled with both of its labels.
pub open spec fn pair_gauges(
    t: Seq<(Key, nat)>,
    name: Seq<char>,
    help: Seq<char>,
    first: Seq<char>,
    second: Seq<char>,
) -> Seq<SampleView> {
    t.map_values(
        |e: (Key, nat)|
            gauge_view(
                name,
                help,
                no_labels().insert(first, e.0.0).insert(second, e.0.1),
                whole(e.1 as int),
            ),
    )
}

/// Appends one gauge for each entry of `t`.
pub fn push_pair_gauges(
    out: &mut Vec<MetricSample>,
    t: &Tally,
    name: &'static str,
    help: &'static str,
    first: &str,
    second: &str,
)
    ensures
        views(final(out)@) == views(old(out)@) + pair_gauges(t@, name@, help@, first@, second@),
{
    let ghost start = views(out@);
    let ghost all = pair_gauges(t@, name@, help@, first@, second@);
    let mut i: usize = 0;
    proof {
        assert(start + all.take(0) =~= start);
    }
    while i < t.entries.len()
        invariant
            i <= t.entries.len(),
            all == pair_gauges(t@, name@, help@, first@, second@),
            views(out@) == start + all.take(i as int),
        decreases t.entries.len() - i,
    {
        let c = &t.entries[i];
        let labels = Labels::new().with(first, c.first.as_str()).with(second, c.second.as_str());
        push_gauge(out, name, help, &labels, GaugeValue::Whole(c.count as i128));
        proof {
            assert(t@[i as int] == (c.key(), c.count as nat));
            assert(start + all.take(i as int + 1) =~= (start + all.take(i as int)).push(all[i as int]));
        }
        i += 1;
    }
    proof {
        assert(all.take(i as int) =~= all);
    }
}

/// Every key is reported once, with the number of its occurrences.
pub proof fn law_counts_reported(
    keys: Seq<Key>,
    k: Key,
    name: Seq<char>,
    help: Seq<char>,
    first: Seq<char>,
    second: Seq<char>,
)
    requires
        occurrences(keys, k) > 0,
    ensures
        reads(
            pair_gauges(tally(keys), name, help, first, second),
            name,
            no_labels().insert(first, k.0).insert(second, k.1),
            GaugeValue::Whole(occurrences(keys, k) as i128),
        ),
        pair_gauges(tally(keys), name, help, first, second).len() == tally(keys).len(),
{
    law_tally_counts(keys, k);
    let t = tally(keys);
    let i = lemma_entry(t, k);
    let s = pair_gauges(t, name, help, first, second);
    assert(is_gauge(
        s[i],
        name,
        no_labels().insert(first, k.0).insert(second, k.1),
        GaugeValue::Whole(occurrences(keys, k) as i128),
    ));
}

/// The place of a key that is counted.
pub proof fn lemma_entry(t: Seq<(Key, nat)>, k: Key) -> (i: int)
    requires
        count_of(t, k) > 0,
    ensures
        0 <= i < t.len(),
        t[i].0 == k,
        t[i].1 == count_of(t, k),
    decreases t.len(),
{
    if t[0].0 == k {
        0
    } else {
        1 + lemma_entry(t.skip(1), k)
    }
}

} // verus!
