//! A finite map held as a list of entries, in the order in which their keys came.
use crate::peer_id::PeerId;
use vstd::prelude::*;

verus! {

/// What a table finds its entries by.
pub trait Key: Sized {
    /// What two keys have in common when they are the same key.
    type Abs;

    /// The key as a mathematical value.
    spec fn abs(&self) -> Self::Abs;

    /// Whether two keys are the same.
    fn same_key(&self, other: &Self) -> (r: bool)
        ensures
            r == (self.abs() == other.abs()),
    ;
}

impl Key for String {
    type Abs = Seq<char>;

    open spec fn abs(&self) -> Seq<char> {
        self@
    }

    fn same_key(&self, other: &String) -> (r: bool) {
        *self == *other
    }
}

impl Key for PeerId {
    type Abs = Seq<u8>;

    open spec fn abs(&self) -> Seq<u8> {
        self@
    }

    fn same_key(&self, other: &PeerId) -> (r: bool) {
        self.same(other)
    }
}

/// A map from keys to values. No key occurs twice.
#[derive(Debug)]
pub struct Table<K: Key, V> {
    entries: Vec<(K, V)>,
}

/// The map that a list of entries stands for.
pub open spec fn entries_map<K: Key, V>(entries: Seq<(K, V)>) -> Map<K::Abs, V>
    decreases entries.len(),
{
    if entries.len() == 0 {
        Map::empty()
    } else {
        entries_map(entries.drop_last()).insert(entries.last().0.abs(), entries.last().1)
    }
}

/// No two entries have the same key.
pub open spec fn distinct_keys<K: Key, V>(entries: Seq<(K, V)>) -> bool {
    forall|i: int, j: int|
        0 <= i < j < entries.len() ==> (#[trigger] entries[i]).0.abs() != (
        #[trigger] entries[j]).0.abs()
}

proof fn lemma_map_has<K: Key, V>(entries: Seq<(K, V)>, i: int)
    requires
        distinct_keys(entries),
        0 <= i < entries.len(),
    ensures
        entries_map(entries).dom().contains(entries[i].0.abs()),
        entries_map(entries)[entries[i].0.abs()] == entries[i].1,
    decreases entries.len(),
{
    let front = entries.drop_last();
    if i < entries.len() - 1 {
        assert(distinct_keys(front));
        lemma_map_has(front, i);
        assert(front[i] == entries[i]);
    }
}

proof fn lemma_map_only<K: Key, V>(entries: Seq<(K, V)>, k: K::Abs)
    ensures
        entries_map(entries).dom().contains(k) <==> exists|i: int|
            0 <= i < entries.len() && (#[trigger] entries[i]).0.abs() == k,
    decreases entries.len(),
{
    if entries.len() > 0 {
        let front = entries.drop_last();
        lemma_map_only(front, k);
        if entries_map(entries).dom().contains(k) {
            if entries.last().0.abs() == k {
                assert(entries[entries.len() - 1].0.abs() == k);
            } else {
                let i = choose|i: int| 0 <= i < front.len() && (#[trigger] front[i]).0.abs() == k;
                assert(entries[i].0.abs() == k);
            }
        }
        if exists|i: int| 0 <= i < entries.len() && (#[trigger] entries[i]).0.abs() == k {
            let i = choose|i: int| 0 <= i < entries.len() && (#[trigger] entries[i]).0.abs() == k;
            if i < front.len() {
                assert(front[i].0.abs() == k);
            }
        }
    }
}

/// With distinct keys the map has one key for each entry.
proof fn lemma_map_len<K: Key, V>(entries: Seq<(K, V)>)
    requires
        distinct_keys(entries),
    ensures
        entries_map(entries).dom().finite(),
        entries_map(entries).dom().len() == entries.len(),
    decreases entries.len(),
{
    if entries.len() > 0 {
        let front = entries.drop_last();
        assert(distinct_keys(front));
        lemma_map_len(front);
        lemma_map_only(front, entries.last().0.abs());
        assert(!entries_map(front).dom().contains(entries.last().0.abs()));
        assert(entries_map(entries).dom() =~= entries_map(front).dom().insert(
            entries.last().0.abs(),
        ));
    }
}

/// Two lists of distinct keys that agree on which key has which value stand for one map.
proof fn lemma_map_update<K: Key, V>(entries: Seq<(K, V)>, i: int, e: (K, V))
    requires
        distinct_keys(entries),
        0 <= i < entries.len(),
        e.0.abs() == entries[i].0.abs(),
    ensures
        distinct_keys(entries.update(i, e)),
        entries_map(entries.update(i, e)) == entries_map(entries).insert(e.0.abs(), e.1),
{
    let out = entries.update(i, e);
    assert forall|k: K::Abs|
        entries_map(out).dom().contains(k) <==> entries_map(entries).insert(
            e.0.abs(),
            e.1,
        ).dom().contains(k) by {
        lemma_map_only(out, k);
        lemma_map_only(entries, k);
        if entries_map(out).dom().contains(k) {
            let j = choose|j: int| 0 <= j < out.len() && (#[trigger] out[j]).0.abs() == k;
            assert(entries[j].0.abs() == k);
        }
        if entries_map(entries).dom().contains(k) {
            let j = choose|j: int| 0 <= j < entries.len() && (#[trigger] entries[j]).0.abs() == k;
            assert(out[j].0.abs() == k);
        }
        if k == e.0.abs() {
            assert(out[i].0.abs() == k);
        }
    }
    assert forall|k: K::Abs| #[trigger]
        entries_map(out).dom().contains(k) implies entries_map(out)[k] == entries_map(
        entries,
    ).insert(e.0.abs(), e.1)[k] by {
        lemma_map_only(out, k);
        let j = choose|j: int| 0 <= j < out.len() && (#[trigger] out[j]).0.abs() == k;
        lemma_map_has(out, j);
        lemma_map_has(entries, j);
        if j == i {
            assert(out[j] == e);
        } else {
            assert(out[j] == entries[j]);
            assert(out[i].0.abs() != out[j].0.abs());
        }
    }
    assert(entries_map(out) =~= entries_map(entries).insert(e.0.abs(), e.1));
}

proof fn lemma_map_remove<K: Key, V>(entries: Seq<(K, V)>, i: int)
    requires
        distinct_keys(entries),
        0 <= i < entries.len(),
    ensures
        distinct_keys(entries.remove(i)),
        entries_map(entries.remove(i)) == entries_map(entries).remove(entries[i].0.abs()),
{
    let out = entries.remove(i);
    let gone = entries[i].0.abs();
    let source = |j: int| if j < i { j } else { j + 1 };
    assert forall|j: int| 0 <= j < out.len() implies #[trigger] out[j] == entries[source(j)] by {}
    assert(distinct_keys(out)) by {
        assert forall|a: int, b: int| 0 <= a < b < out.len() implies (#[trigger] out[a]).0.abs()
            != (#[trigger] out[b]).0.abs() by {
            assert(out[a] == entries[source(a)] && out[b] == entries[source(b)]);
        }
    }
    let want = entries_map(entries).remove(gone);
    assert forall|k: K::Abs| entries_map(out).dom().contains(k) <==> want.dom().contains(k) by {
        lemma_map_only(out, k);
        lemma_map_only(entries, k);
        if entries_map(out).dom().contains(k) {
            let j = choose|j: int| 0 <= j < out.len() && (#[trigger] out[j]).0.abs() == k;
            assert(entries[source(j)].0.abs() == k);
        }
        if want.dom().contains(k) {
            let j = choose|j: int| 0 <= j < entries.len() && (#[trigger] entries[j]).0.abs() == k;
            let t = if j < i { j } else { j - 1 };
            assert(out[t].0.abs() == k);
        }
    }
    assert forall|k: K::Abs| #[trigger] entries_map(out).dom().contains(k) implies entries_map(
        out,
    )[k] == want[k] by {
        lemma_map_only(out, k);
        let j = choose|j: int| 0 <= j < out.len() && (#[trigger] out[j]).0.abs() == k;
        lemma_map_has(out, j);
        assert(out[j] == entries[source(j)]);
        lemma_map_has(entries, source(j));
    }
    assert(entries_map(out) =~= want);
}

proof fn lemma_map_push<K: Key, V>(entries: Seq<(K, V)>, e: (K, V))
    requires
        distinct_keys(entries),
        !entries_map(entries).dom().contains(e.0.abs()),
    ensures
        distinct_keys(entries.push(e)),
        entries_map(entries.push(e)) == entries_map(entries).insert(e.0.abs(), e.1),
{
    let out = entries.push(e);
    assert(out.drop_last() =~= entries);
    assert forall|a: int, b: int| 0 <= a < b < out.len() implies (#[trigger] out[a]).0.abs() != (
    #[trigger] out[b]).0.abs() by {
        if b == entries.len() {
            lemma_map_has(entries, a);
        }
    }
}

impl<K: Key, V> View for Table<K, V> {
    type V = Map<K::Abs, V>;

    closed spec fn view(&self) -> Map<K::Abs, V> {
        entries_map(self.entries@)
    }
}

impl<K: Key, V> Table<K, V> {
    #[verifier::type_invariant]
    spec fn well_formed(self) -> bool {
        distinct_keys(self.entries@)
    }

    /// The entries, in the order in which their keys came: a new key comes last, one that is there
    /// keeps its place.
    pub closed spec fn listed(&self) -> Seq<(K, V)> {
        self.entries@
    }

    /// The map is that of the entries.
    pub proof fn lemma_listed(&self)
        ensures
            self@ == entries_map(self.listed()),
    {
    }

    /// Every key with a value is that of an entry.
    pub proof fn lemma_listed_has(&self, k: K::Abs)
        ensures
            self@.dom().contains(k) <==> exists|i: int|
                0 <= i < self.listed().len() && (#[trigger] self.listed()[i]).0.abs() == k,
    {
        lemma_map_only(self.listed(), k);
        assert(self@ == entries_map(self.listed()));
    }

    /// The table without entries.
    pub fn new() -> (t: Table<K, V>)
        ensures
            t@ == Map::<K::Abs, V>::empty(),
            t.listed() == Seq::<(K, V)>::empty(),
    {
        Table { entries: Vec::new() }
    }

    fn position(&self, key: &K) -> (r: Option<usize>)
        ensures
            r matches Some(i) ==> i < self.listed().len() && self.listed()[i as int].0.abs()
                == key.abs() && self@.dom().contains(key.abs()) && self@[key.abs()]
                == self.listed()[i as int].1,
            r is None ==> !self@.dom().contains(key.abs()),
    {
        proof {
            use_type_invariant(self);
        }
        let found = position_in(&self.entries, key);
        proof {
            if let Some(i) = found {
                lemma_map_has(self.entries@, i as int);
            }
        }
        found
    }

    /// Whether the key has a value.
    pub fn contains_key(&self, key: &K) -> (r: bool)
        ensures
            r == self@.dom().contains(key.abs()),
    {
        match self.position(key) {
            Some(_) => true,
            None => false,
        }
    }

    /// The value of the key.
    pub fn get(&self, key: &K) -> (r: Option<&V>)
        ensures
            r is Some <==> self@.dom().contains(key.abs()),
            r matches Some(v) ==> *v == self@[key.abs()],
    {
        match self.position(key) {
            Some(i) => Some(&self.entries[i].1),
            None => None,
        }
    }

    /// The number of keys with a value.
    pub fn len(&self) -> (n: usize)
        ensures
            n == self@.dom().len(),
            n == self.listed().len(),
            self@.dom().finite(),
    {
        proof {
            use_type_invariant(self);
            lemma_map_len(self.entries@);
        }
        self.entries.len()
    }

    /// The `i`-th entry.
    pub fn entry(&self, i: usize) -> (r: (&K, &V))
        requires
            i < self.listed().len(),
        ensures
            *r.0 == self.listed()[i as int].0,
            *r.1 == self.listed()[i as int].1,
            self@.dom().contains(r.0.abs()),
            self@[r.0.abs()] == *r.1,
    {
        proof {
            use_type_invariant(self);
            lemma_map_has(self.entries@, i as int);
        }
        let e = &self.entries[i];
        (&e.0, &e.1)
    }

    /// Gives the key a value, and returns the value that it had.
    pub fn insert(&mut self, key: K, value: V) -> (prev: Option<V>)
        ensures
            final(self)@ == old(self)@.insert(key.abs(), value),
            prev is Some <==> old(self)@.dom().contains(key.abs()),
            prev matches Some(v) ==> v == old(self)@[key.abs()],
            prev is None ==> final(self).listed() == old(self).listed().push((key, value)),
            prev is Some ==> exists|i: int|
                #![trigger old(self).listed()[i]]
                0 <= i < old(self).listed().len() && old(self).listed()[i].0.abs() == key.abs()
                    && final(self).listed() == old(self).listed().update(i, (key, value)),
    {
        proof {
            use_type_invariant(&*self);
        }
        let mut entries: Vec<(K, V)> = Vec::new();
        std::mem::swap(&mut entries, &mut self.entries);
        let found = position_in(&entries, &key);
        match found {
            Some(i) => {
                let ghost before = entries@;
                assert(old(self).listed()[i as int].0.abs() == key.abs());
                entries.push((key, value));
                let prev = entries.swap_remove(i);
                proof {
                    assert(entries@ =~= before.update(i as int, (key, value)));
                    lemma_map_update(before, i as int, (key, value));
                    lemma_map_has(before, i as int);
                }
                self.entries = entries;
                Some(prev.1)
            },
            None => {
                proof {
                    lemma_map_push(entries@, (key, value));
                }
                entries.push((key, value));
                self.entries = entries;
                None
            },
        }
    }

    /// Takes the value of the key away, and returns it.
    pub fn remove(&mut self, key: &K) -> (prev: Option<V>)
        ensures
            final(self)@ == old(self)@.remove(key.abs()),
            prev is Some <==> old(self)@.dom().contains(key.abs()),
            prev matches Some(v) ==> v == old(self)@[key.abs()],
            prev is None ==> final(self).listed() == old(self).listed(),
            prev is Some ==> exists|i: int|
                #![trigger old(self).listed()[i]]
                0 <= i < old(self).listed().len() && old(self).listed()[i].0.abs() == key.abs()
                    && final(self).listed() == old(self).listed().remove(i),
    {
        proof {
            use_type_invariant(&*self);
        }
        let mut entries: Vec<(K, V)> = Vec::new();
        std::mem::swap(&mut entries, &mut self.entries);
        let found = position_in(&entries, key);
        match found {
            Some(i) => {
                proof {
                    assert(old(self).listed()[i as int].0.abs() == key.abs());
                    lemma_map_remove(entries@, i as int);
                    lemma_map_has(entries@, i as int);
                }
                let prev = entries.remove(i);
                self.entries = entries;
                Some(prev.1)
            },
            None => {
                proof {
                    assert(entries_map(entries@).remove(key.abs()) =~= entries_map(entries@));
                }
                self.entries = entries;
                None
            },
        }
    }
}

fn position_in<K: Key, V>(entries: &Vec<(K, V)>, key: &K) -> (r: Option<usize>)
    requires
        distinct_keys(entries@),
    ensures
        r matches Some(i) ==> i < entries@.len() && entries@[i as int].0.abs() == key.abs(),
        r is None ==> !entries_map(entries@).dom().contains(key.abs()),
{
    let mut i: usize = 0;
    while i < entries.len()
        invariant
            i <= entries@.len(),
            forall|j: int| 0 <= j < i ==> (#[trigger] entries@[j]).0.abs() != key.abs(),
        decreases entries@.len() - i,
    {
        if entries[i].0.same_key(key) {
            return Some(i);
        }
        i += 1;
    }
    proof {
        lemma_map_only(entries@, key.abs());
    }
    None
}

} // verus!
