//! A map keyed by byte strings, kept as a list of entries with distinct keys.
use vstd::prelude::*;

verus! {

/// Whether two byte strings are equal.
pub fn bytes_equal(a: &[u8], b: &[u8]) -> (equal: bool)
    ensures
        equal == (a@ == b@),
{
    if a.len() != b.len() {
        return false;
    }
    let mut i: usize = 0;
    while i < a.len()
        invariant
            i <= a@.len(),
            a@.len() == b@.len(),
            forall|j: int| 0 <= j < i ==> a@[j] == b@[j],
        decreases a@.len() - i,
    {
        if a[i] != b[i] {
            return false;
        }
        i = i + 1;
    }
    assert(a@ =~= b@);
    true
}

/// Values of type `V` stored under byte-string keys.
pub struct KeyedList<V> {
    entries: Vec<(Vec<u8>, V)>,
}

impl<V> KeyedList<V> {
    /// The keys of the entries are pairwise distinct.
    pub closed spec fn wf(self) -> bool {
        forall|i: int, j: int|
            0 <= i < j < self.entries@.len() ==> self.entries@[i].0@ != self.entries@[j].0@
    }

    spec fn has_key(self, k: Seq<u8>) -> bool {
        exists|i: int| 0 <= i < self.entries@.len() && self.entries@[i].0@ == k
    }

    spec fn index_of_key(self, k: Seq<u8>) -> int {
        choose|i: int| 0 <= i < self.entries@.len() && self.entries@[i].0@ == k
    }

    spec fn keys(self) -> Seq<Seq<u8>> {
        self.entries@.map_values(|e: (Vec<u8>, V)| e.0@)
    }

    /// The map from keys to values that the entries hold.
    pub closed spec fn as_map(self) -> Map<Seq<u8>, V> {
        Map::new(|k: Seq<u8>| self.has_key(k), |k: Seq<u8>| self.entries@[self.index_of_key(k)].1)
    }

    proof fn lemma_index_of_key(self, i: int)
        requires
            self.wf(),
            0 <= i < self.entries@.len(),
        ensures
            self.has_key(self.entries@[i].0@),
            self.index_of_key(self.entries@[i].0@) == i,
            self.as_map().dom().contains(self.entries@[i].0@),
            self.as_map()[self.entries@[i].0@] == self.entries@[i].1,
    {
        let k = self.entries@[i].0@;
        assert(self.has_key(k));
        let j = self.index_of_key(k);
        if j < i {
            assert(self.entries@[j].0@ != self.entries@[i].0@);
        } else if i < j {
            assert(self.entries@[i].0@ != self.entries@[j].0@);
        }
    }

    /// Two well-formed lists that hold the same entries apart from those
    /// under key `k` map every other key alike.
    proof fn lemma_agree_off_key(pre: Self, post: Self, k: Seq<u8>)
        requires
            pre.wf(),
            post.wf(),
            forall|j: int|
                0 <= j < post.entries@.len() && post.entries@[j].0@ != k ==> exists|j2: int|
                    0 <= j2 < pre.entries@.len() && #[trigger] pre.entries@[j2] == post.entries@[j],
            forall|j2: int|
                0 <= j2 < pre.entries@.len() && pre.entries@[j2].0@ != k ==> exists|j: int|
                    0 <= j < post.entries@.len() && #[trigger] post.entries@[j] == pre.entries@[j2],
        ensures
            forall|q: Seq<u8>|
                q != k ==> (post.has_key(q) == pre.has_key(q) && (post.has_key(q)
                    ==> post.as_map()[q] == pre.as_map()[q])),
    {
        assert forall|q: Seq<u8>| q != k implies (post.has_key(q) == pre.has_key(q) && (post.has_key(
            q,
        ) ==> post.as_map()[q] == pre.as_map()[q])) by {
            if post.has_key(q) {
                let j = choose|j: int| 0 <= j < post.entries@.len() && post.entries@[j].0@ == q;
                let j2 = choose|j2: int|
                    0 <= j2 < pre.entries@.len() && #[trigger] pre.entries@[j2] == post.entries@[j];
                post.lemma_index_of_key(j);
                pre.lemma_index_of_key(j2);
            }
            if pre.has_key(q) {
                let j2 = choose|j2: int| 0 <= j2 < pre.entries@.len() && pre.entries@[j2].0@ == q;
                let j = choose|j: int|
                    0 <= j < post.entries@.len() && #[trigger] post.entries@[j] == pre.entries@[j2];
                assert(post.entries@[j].0@ == q);
            }
        }
    }

    /// An empty list.
    pub fn new() -> (list: Self)
        ensures
            list.wf(),
            list@ == Map::<Seq<u8>, V>::empty(),
    {
        let list = KeyedList { entries: Vec::new() };
        assert(list.as_map() =~= Map::<Seq<u8>, V>::empty());
        list
    }

    fn find(&self, key: &[u8]) -> (index: Option<usize>)
        requires
            self.wf(),
        ensures
            match index {
                Some(i) => i < self.entries@.len() && self.entries@[i as int].0@ == key@,
                None => !self.has_key(key@),
            },
    {
        let mut i: usize = 0;
        while i < self.entries.len()
            invariant
                i <= self.entries@.len(),
                forall|j: int| 0 <= j < i ==> self.entries@[j].0@ != key@,
            decreases self.entries@.len() - i,
        {
            if bytes_equal(self.entries[i].0.as_slice(), key) {
                return Some(i);
            }
            i = i + 1;
        }
        None
    }

    /// The number of keys held.
    pub fn len(&self) -> (n: usize)
        requires
            self.wf(),
        ensures
            n == self@.dom().len(),
    {
        proof {
            let keys = self.keys();
            assert forall|i: int, j: int|
                0 <= i < keys.len() && 0 <= j < keys.len() && i != j implies keys[i] != keys[j] by {
                if i < j {
                    assert(self.entries@[i].0@ != self.entries@[j].0@);
                } else {
                    assert(self.entries@[j].0@ != self.entries@[i].0@);
                }
            }
            assert(keys.no_duplicates());
            keys.unique_seq_to_set();
            assert forall|k: Seq<u8>| self.as_map().dom().contains(k) <==> keys.to_set().contains(k) by {
                if self.has_key(k) {
                    let i = choose|i: int| 0 <= i < self.entries@.len() && self.entries@[i].0@ == k;
                    assert(keys[i] == k);
                }
                if keys.to_set().contains(k) {
                    let i = choose|i: int| 0 <= i < keys.len() && keys[i] == k;
                    assert(self.entries@[i].0@ == k);
                }
            }
            assert(self.as_map().dom() =~= keys.to_set());
        }
        self.entries.len()
    }

    /// Whether a value is stored under `key`.
    pub fn contains_key(&self, key: &[u8]) -> (found: bool)
        requires
            self.wf(),
        ensures
            found == self@.dom().contains(key@),
    {
        self.find(key).is_some()
    }

    /// The value stored under `key`, if any.
    pub fn get(&self, key: &[u8]) -> (value: Option<&V>)
        requires
            self.wf(),
        ensures
            match value {
                Some(v) => self@.dom().contains(key@) && *v == self@[key@],
                None => !self@.dom().contains(key@),
            },
    {
        match self.find(key) {
            Some(i) => {
                proof {
                    self.lemma_index_of_key(i as int);
                }
                Some(&self.entries[i].1)
            },
            None => None,
        }
    }

    /// Stores `value` under `key`, replacing any value stored there before.
    pub fn insert(&mut self, key: Vec<u8>, value: V)
        requires
            old(self).wf(),
        ensures
            final(self).wf(),
            final(self)@ == old(self)@.insert(key@, value),
    {
        let ghost k = key@;
        let ghost pre = *self;
        match self.find(key.as_slice()) {
            Some(i) => {
                self.entries.set(i, (key, value));
                proof {
                    assert forall|a: int, b: int|
                        0 <= a < b < self.entries@.len() implies self.entries@[a].0@
                        != self.entries@[b].0@ by {
                        assert(pre.entries@[a].0@ != pre.entries@[b].0@);
                    }
                    self.lemma_index_of_key(i as int);
                    assert forall|j: int|
                        0 <= j < self.entries@.len() && self.entries@[j].0@ != k implies exists|j2: int|
                        0 <= j2 < pre.entries@.len() && #[trigger] pre.entries@[j2]
                            == self.entries@[j] by {
                        assert(pre.entries@[j] == self.entries@[j]);
                    }
                    assert forall|j2: int|
                        0 <= j2 < pre.entries@.len() && pre.entries@[j2].0@ != k implies exists|j: int|
                        0 <= j < self.entries@.len() && #[trigger] self.entries@[j]
                            == pre.entries@[j2] by {
                        assert(self.entries@[j2] == pre.entries@[j2]);
                    }
                    Self::lemma_agree_off_key(pre, *self, k);
                    assert(self.as_map() =~= pre.as_map().insert(k, value));
                }
            },
            None => {
                self.entries.push((key, value));
                proof {
                    let n = pre.entries@.len() as int;
                    assert forall|a: int, b: int|
                        0 <= a < b < self.entries@.len() implies self.entries@[a].0@
                        != self.entries@[b].0@ by {
                        if b == n {
                            assert(pre.entries@[a].0@ != k);
                        } else {
                            assert(pre.entries@[a].0@ != pre.entries@[b].0@);
                        }
                    }
                    self.lemma_index_of_key(n);
                    assert forall|j: int|
                        0 <= j < self.entries@.len() && self.entries@[j].0@ != k implies exists|j2: int|
                        0 <= j2 < pre.entries@.len() && #[trigger] pre.entries@[j2]
                            == self.entries@[j] by {
                        assert(pre.entries@[j] == self.entries@[j]);
                    }
                    assert forall|j2: int|
                        0 <= j2 < pre.entries@.len() && pre.entries@[j2].0@ != k implies exists|j: int|
                        0 <= j < self.entries@.len() && #[trigger] self.entries@[j]
                            == pre.entries@[j2] by {
                        assert(self.entries@[j2] == pre.entries@[j2]);
                    }
                    Self::lemma_agree_off_key(pre, *self, k);
                    assert(self.as_map() =~= pre.as_map().insert(k, value));
                }
            },
        }
    }

    /// Takes out the value stored under `key`, if any.
    pub fn remove(&mut self, key: &[u8]) -> (removed: Option<V>)
        requires
            old(self).wf(),
        ensures
            final(self).wf(),
            final(self)@ == old(self)@.remove(key@),
            match removed {
                Some(v) => old(self)@.dom().contains(key@) && v == old(self)@[key@],
                None => !old(self)@.dom().contains(key@),
            },
    {
        let ghost k = key@;
        let ghost pre = *self;
        match self.find(key) {
            Some(i) => {
                let (_, v) = self.entries.remove(i);
                proof {
                    pre.lemma_index_of_key(i as int);
                    assert forall|a: int, b: int|
                        0 <= a < b < self.entries@.len() implies self.entries@[a].0@
                        != self.entries@[b].0@ by {
                        let a2 = if a < i { a } else { a + 1 };
                        let b2 = if b < i { b } else { b + 1 };
                        assert(self.entries@[a] == pre.entries@[a2]);
                        assert(self.entries@[b] == pre.entries@[b2]);
                        assert(pre.entries@[a2].0@ != pre.entries@[b2].0@);
                    }
                    assert forall|j: int|
                        0 <= j < self.entries@.len() && self.entries@[j].0@ != k implies exists|j2: int|
                        0 <= j2 < pre.entries@.len() && #[trigger] pre.entries@[j2]
                            == self.entries@[j] by {
                        let j2 = if j < i { j } else { j + 1 };
                        assert(pre.entries@[j2] == self.entries@[j]);
                    }
                    assert forall|j2: int|
                        0 <= j2 < pre.entries@.len() && pre.entries@[j2].0@ != k implies exists|j: int|
                        0 <= j < self.entries@.len() && #[trigger] self.entries@[j]
                            == pre.entries@[j2] by {
                        let j = if j2 < i { j2 } else { j2 - 1 };
                        assert(self.entries@[j] == pre.entries@[j2]);
                    }
                    Self::lemma_agree_off_key(pre, *self, k);
                    assert(!self.has_key(k)) by {
                        if self.has_key(k) {
                            let j = choose|j: int|
                                0 <= j < self.entries@.len() && self.entries@[j].0@ == k;
                            let j2 = if j < i { j } else { j + 1 };
                            assert(self.entries@[j] == pre.entries@[j2]);
                            assert(pre.entries@[j2].0@ == pre.entries@[i as int].0@);
                            if j2 < i {
                                assert(pre.entries@[j2].0@ != pre.entries@[i as int].0@);
                            } else {
                                assert(pre.entries@[i as int].0@ != pre.entries@[j2].0@);
                            }
                        }
                    }
                    assert(self.as_map() =~= pre.as_map().remove(k));
                }
                Some(v)
            },
            None => {
                proof {
                    assert(pre.as_map().remove(k) =~= pre.as_map());
                }
                None
            },
        }
    }
}

impl<V> View for KeyedList<V> {
    type V = Map<Seq<u8>, V>;

    closed spec fn view(&self) -> Map<Seq<u8>, V> {
        self.as_map()
    }
}

} // verus!
