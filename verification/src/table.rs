//! Small keyed tables that remember the order in which keys arrived.

use vstd::prelude::*;

verus! {

/// A key that can be compared at run time.
pub trait Key: Copy {
    fn same(&self, other: &Self) -> (r: bool)
        ensures
            r == (*self == *other),
    ;
}

/// Where `key` first stands in `entries`, or their number when it does not.
pub open spec fn position<K, M>(entries: Seq<(K, M)>, key: K) -> int
    decreases entries.len(),
{
    if entries.len() == 0 {
        0
    } else if entries[0].0 == key {
        0
    } else {
        1 + position(entries.drop_first(), key)
    }
}

/// Whether `key` has an entry.
pub open spec fn holds<K, M>(entries: Seq<(K, M)>, key: K) -> bool {
    position(entries, key) < entries.len()
}

/// What stands under `key`.
pub open spec fn lookup<K, M>(entries: Seq<(K, M)>, key: K) -> Option<M> {
    if holds(entries, key) {
        Some(entries[position(entries, key)].1)
    } else {
        None
    }
}

/// `entries` with `value` under `key`: in place where the key is known, else
/// behind the others.
pub open spec fn put<K, M>(entries: Seq<(K, M)>, key: K, value: M) -> Seq<(K, M)> {
    if holds(entries, key) {
        entries.update(position(entries, key), (key, value))
    } else {
        entries.push((key, value))
    }
}

/// `entries` without the entry of `key`.
pub open spec fn without<K, M>(entries: Seq<(K, M)>, key: K) -> Seq<(K, M)> {
    if holds(entries, key) {
        entries.remove(position(entries, key))
    } else {
        entries
    }
}

/// No key has two entries.
pub open spec fn unique_keys<K, M>(entries: Seq<(K, M)>) -> bool {
    forall|i: int, j: int|
        #![trigger entries[i], entries[j]]
        0 <= i < j < entries.len() ==> entries[i].0 != entries[j].0
}

/// `position` gives the first place of the key.
pub proof fn lemma_position<K, M>(entries: Seq<(K, M)>, key: K)
    ensures
        0 <= position(entries, key) <= entries.len(),
        holds(entries, key) ==> entries[position(entries, key)].0 == key,
        forall|j: int|
            0 <= j < position(entries, key) ==> (#[trigger] entries[j]).0 != key,
    decreases entries.len(),
{
    if entries.len() > 0 && entries[0].0 != key {
        let rest = entries.drop_first();
        lemma_position(rest, key);
        assert forall|j: int| 0 <= j < position(entries, key) implies (#[trigger] entries[j]).0
            != key by {
            if j > 0 {
                assert(rest[j - 1] == entries[j]);
            }
        }
        if holds(entries, key) {
            assert(rest[position(rest, key)] == entries[position(entries, key)]);
        }
    }
}

/// A first place of the key is its `position`.
pub proof fn lemma_position_is<K, M>(entries: Seq<(K, M)>, key: K, at: int)
    requires
        0 <= at <= entries.len(),
        at < entries.len() ==> entries[at].0 == key,
        forall|j: int| 0 <= j < at ==> (#[trigger] entries[j]).0 != key,
    ensures
        position(entries, key) == at,
{
    lemma_position(entries, key);
    let found = position(entries, key);
    if found < at {
        assert(entries[found].0 != key);
    }
    if at < found {
        assert(entries[at].0 != key);
    }
}

/// A stored value is what a lookup gives back, and no other key notices.
pub proof fn lemma_put<K, M>(entries: Seq<(K, M)>, key: K, value: M, other: K)
    ensures
        lookup(put(entries, key, value), key) == Some(value),
        other != key ==> lookup(put(entries, key, value), other) == lookup(entries, other),
        unique_keys(entries) ==> unique_keys(put(entries, key, value)),
        put(entries, key, value).len() == entries.len() + if holds(entries, key) { 0int } else { 1 },
{
    let changed = put(entries, key, value);
    lemma_position(entries, key);
    lemma_position(entries, other);
    let at = position(entries, key);
    assert forall|j: int| 0 <= j < at implies (#[trigger] changed[j]).0 != key by {
        assert(entries[j].0 != key);
    }
    lemma_position_is(changed, key, at);
    if other != key {
        let there = position(entries, other);
        if there < entries.len() {
            assert forall|j: int| 0 <= j < there implies (#[trigger] changed[j]).0 != other by {
                assert(entries[j].0 != other);
            }
            lemma_position_is(changed, other, there);
        } else {
            assert forall|j: int| 0 <= j < changed.len() implies (#[trigger] changed[j]).0
                != other by {
                if j < entries.len() {
                    assert(entries[j].0 != other);
                }
            }
            lemma_position_is(changed, other, changed.len() as int);
        }
    }
    if unique_keys(entries) {
        assert forall|i: int, j: int|
            #![trigger changed[i], changed[j]]
            0 <= i < j < changed.len() implies changed[i].0 != changed[j].0 by {
            if j < entries.len() {
                assert(entries[i].0 != entries[j].0);
            } else {
                assert(entries[i].0 != key);
            }
        }
    }
}

/// A removed key is gone, and no other key notices.
pub proof fn lemma_without<K, M>(entries: Seq<(K, M)>, key: K, other: K)
    requires
        unique_keys(entries),
    ensures
        !holds(without(entries, key), key),
        other != key ==> lookup(without(entries, key), other) == lookup(entries, other),
        unique_keys(without(entries, key)),
        without(entries, key).len() == entries.len() - if holds(entries, key) { 1int } else { 0 },
{
    let changed = without(entries, key);
    lemma_position(entries, key);
    lemma_position(entries, other);
    lemma_position(changed, key);
    let at = position(entries, key);
    if holds(entries, key) {
        assert forall|j: int| 0 <= j < changed.len() implies (#[trigger] changed[j]).0 != key by {
            let from = if j < at { j } else { j + 1 };
            assert(changed[j] == entries[from]);
            if from < at {
                assert(entries[from].0 != entries[at].0);
            } else {
                assert(entries[at].0 != entries[from].0);
            }
        }
        lemma_position_is(changed, key, changed.len() as int);
        assert forall|i: int, j: int|
            #![trigger changed[i], changed[j]]
            0 <= i < j < changed.len() implies changed[i].0 != changed[j].0 by {
            let from = if i < at { i } else { i + 1 };
            let to = if j < at { j } else { j + 1 };
            assert(changed[i] == entries[from] && changed[j] == entries[to]);
        }
        if other != key {
            let there = position(entries, other);
            let moved = if there < at { there } else { there - 1 };
            assert forall|j: int| 0 <= j < moved implies (#[trigger] changed[j]).0 != other by {
                let from = if j < at { j } else { j + 1 };
                assert(changed[j] == entries[from]);
                assert(entries[from].0 != other);
            }
            if there < entries.len() {
                assert(changed[moved] == entries[there]);
            }
            lemma_position_is(changed, other, moved);
        }
    }
}

/// The entries that pass a test, in their order.
pub open spec fn retained<K, M>(entries: Seq<(K, M)>, test: spec_fn(K, M) -> bool) -> Seq<(K, M)>
    decreases entries.len(),
{
    if entries.len() == 0 {
        Seq::empty()
    } else {
        let earlier = retained(entries.drop_last(), test);
        if test(entries.last().0, entries.last().1) {
            earlier.push(entries.last())
        } else {
            earlier
        }
    }
}

/// The entries that fail a test, in their order.
pub open spec fn discarded<K, M>(entries: Seq<(K, M)>, test: spec_fn(K, M) -> bool) -> Seq<(K, M)>
    decreases entries.len(),
{
    if entries.len() == 0 {
        Seq::empty()
    } else {
        let earlier = discarded(entries.drop_last(), test);
        if test(entries.last().0, entries.last().1) {
            earlier
        } else {
            earlier.push(entries.last())
        }
    }
}

/// What is kept was there and passes the test; nothing else is lost.
pub proof fn lemma_retained<K, M>(entries: Seq<(K, M)>, test: spec_fn(K, M) -> bool)
    ensures
        retained(entries, test).len() + discarded(entries, test).len() == entries.len(),
        forall|i: int|
            0 <= i < retained(entries, test).len() ==> test(
                (#[trigger] retained(entries, test)[i]).0,
                retained(entries, test)[i].1,
            ) && entries.contains(retained(entries, test)[i]),
        forall|i: int|
            0 <= i < entries.len() && test((#[trigger] entries[i]).0, entries[i].1) ==> retained(
                entries,
                test,
            ).contains(entries[i]),
        unique_keys(entries) ==> unique_keys(retained(entries, test)),
    decreases entries.len(),
{
    if entries.len() > 0 {
        let before = entries.drop_last();
        let last = entries.last();
        let earlier = retained(before, test);
        let now = retained(entries, test);
        lemma_retained(before, test);
        assert forall|i: int| 0 <= i < now.len() implies test((#[trigger] now[i]).0, now[i].1)
            && entries.contains(now[i]) by {
            if i < earlier.len() {
                assert(earlier[i] == now[i]);
                let j = choose|j: int| 0 <= j < before.len() && before[j] == earlier[i];
                assert(entries[j] == now[i]);
            } else {
                assert(entries[entries.len() - 1] == now[i]);
            }
        }
        assert forall|i: int|
            0 <= i < entries.len() && test((#[trigger] entries[i]).0, entries[i].1) implies now.contains(
            entries[i],
        ) by {
            if i < before.len() {
                assert(before[i] == entries[i]);
                let j = choose|j: int| 0 <= j < earlier.len() && earlier[j] == before[i];
                assert(now[j] == entries[i]);
            } else {
                assert(now[now.len() - 1] == entries[i]);
            }
        }
        if unique_keys(entries) {
            assert forall|i: int, j: int|
                #![trigger before[i], before[j]]
                0 <= i < j < before.len() implies before[i].0 != before[j].0 by {
                assert(entries[i].0 != entries[j].0);
            }
            assert forall|i: int, j: int|
                #![trigger now[i], now[j]]
                0 <= i < j < now.len() implies now[i].0 != now[j].0 by {
                if j < earlier.len() {
                    assert(earlier[i].0 != earlier[j].0);
                } else {
                    assert(earlier[i] == now[i]);
                    let k = choose|k: int| 0 <= k < before.len() && before[k] == earlier[i];
                    assert(entries[k] == now[i] && entries[entries.len() - 1] == now[j]);
                }
            }
        }
    }
}

/// What is found under a key that has one entry.
pub proof fn lemma_unique_lookup<K, M>(entries: Seq<(K, M)>, at: int)
    requires
        unique_keys(entries),
        0 <= at < entries.len(),
    ensures
        lookup(entries, entries[at].0) == Some(entries[at].1),
{
    assert forall|j: int| 0 <= j < at implies (#[trigger] entries[j]).0 != entries[at].0 by {}
    lemma_position_is(entries, entries[at].0, at);
}

/// What fails a test was there, and no key fails twice.
pub proof fn lemma_discarded<K, M>(entries: Seq<(K, M)>, test: spec_fn(K, M) -> bool)
    requires
        unique_keys(entries),
    ensures
        unique_keys(discarded(entries, test)),
        forall|i: int|
            0 <= i < discarded(entries, test).len() ==> !test(
                (#[trigger] discarded(entries, test)[i]).0,
                discarded(entries, test)[i].1,
            ) && entries.contains(discarded(entries, test)[i]),
    decreases entries.len(),
{
    if entries.len() > 0 {
        let before = entries.drop_last();
        assert(unique_keys(before)) by {
            assert forall|i: int, j: int|
                #![trigger before[i], before[j]]
                0 <= i < j < before.len() implies before[i].0 != before[j].0 by {
                assert(entries[i].0 != entries[j].0);
            }
        }
        lemma_discarded(before, test);
        let earlier = discarded(before, test);
        let gone = discarded(entries, test);
        assert forall|i: int| 0 <= i < gone.len() implies !test(
            (#[trigger] gone[i]).0,
            gone[i].1,
        ) && entries.contains(gone[i]) by {
            if i < earlier.len() {
                assert(earlier[i] == gone[i]);
                let j = choose|j: int| 0 <= j < before.len() && before[j] == earlier[i];
                assert(entries[j] == gone[i]);
            } else {
                assert(entries[entries.len() - 1] == gone[i]);
            }
        }
        assert forall|i: int, j: int|
            #![trigger gone[i], gone[j]]
            0 <= i < j < gone.len() implies gone[i].0 != gone[j].0 by {
            if j < earlier.len() {
                assert(earlier[i].0 != earlier[j].0);
            } else {
                assert(earlier[i] == gone[i]);
                let k = choose|k: int| 0 <= k < before.len() && before[k] == earlier[i];
                assert(entries[k] == gone[i] && entries[entries.len() - 1] == gone[j]);
            }
        }
    }
}

/// A key that is found among the entries that pass, or that fail, was there and
/// passes or fails.
pub proof fn lemma_retained_lookup<K, M>(
    entries: Seq<(K, M)>,
    test: spec_fn(K, M) -> bool,
    key: K,
)
    requires
        unique_keys(entries),
    ensures
        lookup(retained(entries, test), key) == match lookup(entries, key) {
            Some(value) => if test(key, value) {
                Some(value)
            } else {
                None
            },
            None => None,
        },
        lookup(discarded(entries, test), key) == match lookup(entries, key) {
            Some(value) => if test(key, value) {
                None
            } else {
                Some(value)
            },
            None => None,
        },
    decreases entries.len(),
{
    if entries.len() > 0 {
        let before = entries.drop_last();
        let last = entries.last();
        assert(unique_keys(before)) by {
            assert forall|i: int, j: int|
                #![trigger before[i], before[j]]
                0 <= i < j < before.len() implies before[i].0 != before[j].0 by {
                assert(entries[i].0 != entries[j].0);
            }
        }
        lemma_position(before, last.0);
        assert(!holds(before, last.0)) by {
            if holds(before, last.0) {
                let at = position(before, last.0);
                assert(entries[at].0 != entries[entries.len() - 1].0);
            }
        }
        assert(entries =~= before.push(last));
        lemma_put(before, last.0, last.1, key);
        lemma_retained_lookup(before, test, key);
        lemma_retained_lookup(before, test, last.0);
        lemma_put(retained(before, test), last.0, last.1, key);
        lemma_put(discarded(before, test), last.0, last.1, key);
    }
}

/// Whether every entry passes a test.
pub open spec fn all<K, M>(entries: Seq<(K, M)>, test: spec_fn(K, M) -> bool) -> bool {
    forall|i: int| 0 <= i < entries.len() ==> test((#[trigger] entries[i]).0, entries[i].1)
}

pub proof fn lemma_all_lookup<K, M>(entries: Seq<(K, M)>, test: spec_fn(K, M) -> bool, key: K)
    requires
        all(entries, test),
    ensures
        lookup(entries, key) matches Some(value) ==> test(key, value),
{
    lemma_position(entries, key);
    if holds(entries, key) {
        assert(test(
            entries[position(entries, key)].0,
            entries[position(entries, key)].1,
        ));
    }
}

pub proof fn lemma_all_put<K, M>(
    entries: Seq<(K, M)>,
    test: spec_fn(K, M) -> bool,
    key: K,
    value: M,
)
    requires
        all(entries, test),
        test(key, value),
    ensures
        all(put(entries, key, value), test),
{
    lemma_position(entries, key);
    let changed = put(entries, key, value);
    assert forall|i: int| 0 <= i < changed.len() implies test(
        (#[trigger] changed[i]).0,
        changed[i].1,
    ) by {
        if i < entries.len() && i != position(entries, key) {
            assert(changed[i] == entries[i]);
        }
    }
}

pub proof fn lemma_all_without<K, M>(
    entries: Seq<(K, M)>,
    test: spec_fn(K, M) -> bool,
    key: K,
)
    requires
        all(entries, test),
    ensures
        all(without(entries, key), test),
{
    lemma_position(entries, key);
    let changed = without(entries, key);
    assert forall|i: int| 0 <= i < changed.len() implies test(
        (#[trigger] changed[i]).0,
        changed[i].1,
    ) by {
        if holds(entries, key) && i >= position(entries, key) {
            assert(changed[i] == entries[i + 1]);
        } else {
            assert(changed[i] == entries[i]);
        }
    }
}

pub proof fn lemma_all_retained<K, M>(
    entries: Seq<(K, M)>,
    test: spec_fn(K, M) -> bool,
    keep: spec_fn(K, M) -> bool,
)
    requires
        all(entries, test),
    ensures
        all(retained(entries, keep), test),
        all(discarded(entries, keep), test),
    decreases entries.len(),
{
    if entries.len() > 0 {
        let before = entries.drop_last();
        assert forall|i: int| 0 <= i < before.len() implies test(
            (#[trigger] before[i]).0,
            before[i].1,
        ) by {
            assert(before[i] == entries[i]);
        }
        lemma_all_retained(before, test, keep);
        assert(test(entries[entries.len() - 1].0, entries[entries.len() - 1].1));
    }
}

/// A run-time test of table entries.
pub trait Keep<K, V: View> {
    /// What the test says of an entry.
    spec fn test(&self) -> spec_fn(K, V::V) -> bool;

    fn keeps(&self, key: K, value: &V) -> (r: bool)
        ensures
            r == (self.test())(key, value@),
    ;
}

/// What a list of entries says.
pub open spec fn entries_model<K, V: View>(entries: Seq<(K, V)>) -> Seq<(K, V::V)> {
    entries.map_values(|entry: (K, V)| (entry.0, entry.1@))
}

/// An association list with one entry per key, in order of first insertion.
pub struct Table<K, V> {
    entries: Vec<(K, V)>,
}

impl<K: Key, V: View> View for Table<K, V> {
    type V = Seq<(K, V::V)>;

    closed spec fn view(&self) -> Seq<(K, V::V)> {
        self.entries@.map_values(|entry: (K, V)| (entry.0, entry.1@))
    }
}

impl<K: Key, V: View> Table<K, V> {
    pub fn new() -> (r: Self)
        ensures
            r@ == Seq::<(K, V::V)>::empty(),
    {
        let r = Table { entries: Vec::new() };
        assert(r@ =~= Seq::<(K, V::V)>::empty());
        r
    }

    pub fn len(&self) -> (r: usize)
        ensures
            r == self@.len(),
    {
        self.entries.len()
    }

    pub fn is_empty(&self) -> (r: bool)
        ensures
            r == (self@.len() == 0),
    {
        self.entries.len() == 0
    }

    /// The place of `key`.
    pub fn find(&self, key: K) -> (r: Option<usize>)
        ensures
            match r {
                Some(at) => at == position(self@, key) && holds(self@, key),
                None => !holds(self@, key),
            },
    {
        let mut i: usize = 0;
        while i < self.entries.len()
            invariant
                i <= self.entries@.len(),
                self@.len() == self.entries@.len(),
                forall|j: int| 0 <= j < i ==> (#[trigger] self@[j]).0 != key,
            decreases self.entries.len() - i,
        {
            if self.entries[i].0.same(&key) {
                proof {
                    lemma_position_is(self@, key, i as int);
                }
                return Some(i);
            }
            i += 1;
        }
        proof {
            lemma_position_is(self@, key, i as int);
        }
        None
    }

    pub fn contains_key(&self, key: K) -> (r: bool)
        ensures
            r == holds(self@, key),
    {
        self.find(key).is_some()
    }

    pub fn get(&self, key: K) -> (r: Option<&V>)
        ensures
            match r {
                Some(value) => lookup(self@, key) == Some(value@),
                None => lookup(self@, key) is None,
            },
    {
        match self.find(key) {
            Some(at) => Some(&self.entries[at].1),
            None => None,
        }
    }

    pub fn key_at(&self, at: usize) -> (r: K)
        requires
            at < self@.len(),
        ensures
            r == self@[at as int].0,
    {
        self.entries[at].0
    }

    pub fn value_at(&self, at: usize) -> (r: &V)
        requires
            at < self@.len(),
        ensures
            r@ == self@[at as int].1,
    {
        &self.entries[at].1
    }

    pub fn value_at_mut(&mut self, at: usize) -> (r: &mut V)
        requires
            at < old(self)@.len(),
        ensures
            r@ == old(self)@[at as int].1,
            final(self)@ == old(self)@.update(at as int, (old(self)@[at as int].0, final(r)@)),
    {
        &mut self.entries[at].1
    }

    /// Puts `value` under `key`, in the place of an earlier value of that key.
    pub fn insert(&mut self, key: K, value: V)
        ensures
            final(self)@ == put(old(self)@, key, value@),
    {
        match self.find(key) {
            Some(at) => {
                proof {
                    lemma_position(self@, key);
                }
                self.entries[at] = (key, value);
                assert(self@ =~= put(old(self)@, key, value@));
            },
            None => {
                self.entries.push((key, value));
                assert(self@ =~= put(old(self)@, key, value@));
            },
        }
    }

    pub fn remove_at(&mut self, at: usize) -> (r: (K, V))
        requires
            at < old(self)@.len(),
        ensures
            (r.0, r.1@) == old(self)@[at as int],
            final(self)@ == old(self)@.remove(at as int),
    {
        let r = self.entries.remove(at);
        assert(self@ =~= old(self)@.remove(at as int));
        r
    }

    /// Takes out the entry of `key`.
    pub fn remove(&mut self, key: K) -> (r: Option<V>)
        ensures
            match r {
                Some(value) => lookup(old(self)@, key) == Some(value@),
                None => lookup(old(self)@, key) is None,
            },
            final(self)@ == without(old(self)@, key),
    {
        match self.find(key) {
            Some(at) => {
                let entry = self.remove_at(at);
                Some(entry.1)
            },
            None => None,
        }
    }

    /// Takes out the entries that fail a test.
    pub fn extract<P: Keep<K, V>>(&mut self, keep: &P) -> (r: Vec<(K, V)>)
        ensures
            final(self)@ == retained(old(self)@, keep.test()),
            entries_model(r@) == discarded(old(self)@, keep.test()),
    {
        let mut out: Vec<(K, V)> = Vec::new();
        let ghost start = self@;
        let ghost test = keep.test();
        let ghost mut seen: int = 0;
        let mut i: usize = 0;
        assert(start.take(0) =~= Seq::empty());
        assert(start.skip(0) =~= start);
        assert(entries_model(out@) =~= Seq::empty());
        while i < self.entries.len()
            invariant
                0 <= seen <= start.len(),
                test == keep.test(),
                self@.len() == self.entries@.len(),
                i == retained(start.take(seen), test).len(),
                self@ =~= retained(start.take(seen), test) + start.skip(seen),
                entries_model(out@) =~= discarded(start.take(seen), test),
            decreases self.entries@.len() - i,
        {
            let ghost kept = retained(start.take(seen), test);
            let ghost gone = entries_model(out@);
            proof {
                assert(self@[i as int] == start[seen]);
                assert(start.take(seen + 1).drop_last() =~= start.take(seen));
                assert(start.skip(seen).drop_first() =~= start.skip(seen + 1));
            }
            if keep.keeps(self.entries[i].0, &self.entries[i].1) {
                i += 1;
                assert(kept.push(start[seen]) + start.skip(seen + 1) =~= kept + start.skip(seen));
            } else {
                let entry = self.remove_at(i);
                out.push(entry);
                assert((kept + start.skip(seen)).remove(i as int) =~= kept + start.skip(seen + 1));
                assert(entries_model(out@) =~= gone.push(start[seen]));
            }
            proof {
                seen = seen + 1;
            }
        }
        proof {
            assert(start.take(seen) =~= start);
            assert(retained(start, test) + start.skip(seen) =~= retained(start, test));
        }
        out
    }

    pub fn clear(&mut self)
        ensures
            final(self)@ == Seq::<(K, V::V)>::empty(),
    {
        self.entries.clear();
        assert(self@ =~= Seq::<(K, V::V)>::empty());
    }
}

} // verus!
