//! Storage maps: the entries of one storage item, in the order in which the storage walks them.
use frame_support::StorageHasher;
use frame_support::Twox64Concat;
use vstd::prelude::*;

verus! {

/// What `Twox64Concat` makes of the bytes of an encoded key.
pub uninterp spec fn twox_64_concat(encoded: Seq<u8>) -> Seq<u8>;

/// Calls `Twox64Concat::hash` of `frame_support`: eight bytes of hash, then the encoded key itself.
#[verifier::external_body]
fn hash_key(encoded: &[u8; 4]) -> (hashed: Vec<u8>)
    ensures
        hashed@ == twox_64_concat(encoded@),
        hashed@.len() == 12,
        hashed@.subrange(8, 12) == encoded@,
{
    Twox64Concat::hash(encoded)
}

/// The encoding of a key: its four bytes, the least significant first.
pub open spec fn encode(key: u32) -> Seq<u8> {
    seq![
        (key % 256) as u8,
        (key / 256 % 256) as u8,
        (key / 65536 % 256) as u8,
        (key / 16777216) as u8,
    ]
}

/// Where the storage keeps the entry of a key.
pub open spec fn location(key: u32) -> Seq<u8> {
    twox_64_concat(encode(key))
}

/// The order of the storage: by the first byte in which the two locations differ.
pub open spec fn before(a: Seq<u8>, b: Seq<u8>) -> bool {
    exists|i: int| differ_first_at(a, b, i) && a[i] < b[i]
}

/// The locations agree below `i` and differ at `i`.
pub open spec fn differ_first_at(a: Seq<u8>, b: Seq<u8>, i: int) -> bool {
    &&& 0 <= i < a.len()
    &&& i < b.len()
    &&& a[i] != b[i]
    &&& forall|j: int| 0 <= j < i ==> a[j] == b[j]
}

/// `keys` is the walk of the storage over the keys in `dom`: each key once, in storage order.
pub open spec fn is_walk(keys: Seq<u32>, dom: Set<u32>) -> bool {
    &&& forall|k: u32| dom.contains(k) <==> keys.contains(k)
    &&& forall|i: int, j: int|
        0 <= i < j < keys.len() ==> before(#[trigger] location(keys[i]), #[trigger] location(keys[j]))
}

/// The walk of the storage over the keys in `dom`.
pub open spec fn walk(dom: Set<u32>) -> Seq<u32> {
    choose|keys: Seq<u32>| is_walk(keys, dom)
}

proof fn lemma_before_irreflexive(a: Seq<u8>)
    ensures
        !before(a, a),
{
}

proof fn lemma_before_transitive(a: Seq<u8>, b: Seq<u8>, c: Seq<u8>)
    requires
        before(a, b),
        before(b, c),
    ensures
        before(a, c),
{
    let i = choose|i: int| differ_first_at(a, b, i) && a[i] < b[i];
    let j = choose|j: int| differ_first_at(b, c, j) && b[j] < c[j];
    let k = if i < j {
        i
    } else {
        j
    };
    assert(differ_first_at(a, c, k) && a[k] < c[k]);
}

proof fn lemma_before_asymmetric(a: Seq<u8>, b: Seq<u8>)
    requires
        before(a, b),
    ensures
        !before(b, a),
{
    if before(b, a) {
        lemma_before_transitive(a, b, a);
        lemma_before_irreflexive(a);
    }
}

proof fn lemma_encode_injective(a: u32, b: u32)
    requires
        encode(a) == encode(b),
    ensures
        a == b,
{
    assert(encode(a)[0] == encode(b)[0]);
    assert(encode(a)[1] == encode(b)[1]);
    assert(encode(a)[2] == encode(b)[2]);
    assert(encode(a)[3] == encode(b)[3]);
}

/// Whether `a` comes before `b`.
fn is_before(a: &Vec<u8>, b: &Vec<u8>) -> (r: bool)
    requires
        a@.len() == b@.len(),
    ensures
        r == before(a@, b@),
        !r ==> a@ == b@ || before(b@, a@),
{
    let mut i: usize = 0;
    while i < a.len()
        invariant
            i <= a@.len() == b@.len(),
            forall|j: int| 0 <= j < i ==> a@[j] == b@[j],
        decreases a@.len() - i,
    {
        if a[i] != b[i] {
            proof {
                if a[i as int] < b[i as int] {
                    assert(differ_first_at(a@, b@, i as int));
                } else {
                    assert(differ_first_at(b@, a@, i as int));
                    lemma_before_asymmetric(b@, a@);
                }
            }
            return a[i] < b[i];
        }
        i = i + 1;
    }
    assert(a@ =~= b@);
    false
}

/// Computes the location of a key.
fn locate(key: u32) -> (at: Vec<u8>)
    ensures
        at@ == location(key),
        at@.len() == 12,
        at@.subrange(8, 12) == encode(key),
{
    let encoded: [u8; 4] = [
        (key % 256) as u8,
        (key / 256 % 256) as u8,
        (key / 65536 % 256) as u8,
        (key / 16777216) as u8,
    ];
    assert(encoded@ =~= encode(key));
    hash_key(&encoded)
}

/// One entry of a storage map.
pub struct Entry<V> {
    key: u32,
    at: Vec<u8>,
    value: V,
}

/// A storage map from integer keys, walked in storage order.
pub struct StorageMap<V> {
    entries: Vec<Entry<V>>,
}

impl<V> View for StorageMap<V> {
    type V = Map<u32, V>;

    closed spec fn view(&self) -> Map<u32, V> {
        Map::new(
            |k: u32| exists|i: int| self.holds(k, i),
            |k: u32| self.entries@[choose|i: int| self.holds(k, i)].value,
        )
    }
}

impl<V> StorageMap<V> {
    spec fn holds(&self, key: u32, i: int) -> bool {
        0 <= i < self.entries@.len() && self.entries@[i].key == key
    }

    /// The keys in the order of the storage.
    pub closed spec fn keys(&self) -> Seq<u32> {
        self.entries@.map_values(|e: Entry<V>| e.key)
    }

    /// Every entry knows its location, and the entries stand in storage order.
    pub closed spec fn wf(&self) -> bool {
        &&& forall|i: int|
            0 <= i < self.entries@.len() ==> {
                &&& (#[trigger] self.entries@[i]).at@ == location(self.entries@[i].key)
                &&& self.entries@[i].at@.len() == 12
                &&& self.entries@[i].at@.subrange(8, 12) == encode(self.entries@[i].key)
            }
        &&& forall|i: int, j: int|
            0 <= i < j < self.entries@.len() ==> before(
                (#[trigger] self.entries@[i]).at@,
                (#[trigger] self.entries@[j]).at@,
            )
    }

    /// A key stands in at most one entry, so the entry that holds it gives its value.
    proof fn lemma_holds(&self, key: u32, i: int)
        requires
            self.wf(),
            self.holds(key, i),
        ensures
            self@.contains_key(key),
            self@[key] == self.entries@[i].value,
            forall|j: int| self.holds(key, j) ==> j == i,
    {
        assert forall|j: int| self.holds(key, j) implies j == i by {
            if j < i {
                assert(before(self.entries@[j].at@, self.entries@[i].at@));
                lemma_before_irreflexive(location(key));
            } else if i < j {
                assert(before(self.entries@[i].at@, self.entries@[j].at@));
                lemma_before_irreflexive(location(key));
            }
        }
        assert(self.holds(key, choose|j: int| self.holds(key, j)));
    }

    /// The keys of a storage map are the walk over its domain.
    pub proof fn keys_are_the_walk(&self)
        requires
            self.wf(),
        ensures
            is_walk(self.keys(), self@.dom()),
            self.keys() == walk(self@.dom()),
    {
        assert forall|k: u32| self@.dom().contains(k) <==> self.keys().contains(k) by {
            if self@.dom().contains(k) {
                let i = choose|i: int| self.holds(k, i);
                assert(self.keys()[i] == k);
            }
            if self.keys().contains(k) {
                let i = choose|i: int| 0 <= i < self.keys().len() && self.keys()[i] == k;
                assert(self.holds(k, i));
            }
        }
        assert forall|i: int, j: int| 0 <= i < j < self.keys().len() implies before(
            #[trigger] location(self.keys()[i]),
            #[trigger] location(self.keys()[j]),
        ) by {
            assert(before(self.entries@[i].at@, self.entries@[j].at@));
        }
        walk_is_unique(self.keys(), walk(self@.dom()), self@.dom());
    }
}

/// Two walks over the same keys are the same: the order of a walk depends on the keys alone.
pub proof fn walk_is_unique(a: Seq<u32>, b: Seq<u32>, dom: Set<u32>)
    requires
        is_walk(a, dom),
        is_walk(b, dom),
    ensures
        a == b,
    decreases a.len(),
{
    if a.len() == 0 {
        if b.len() > 0 {
            assert(b.contains(b[0]));
            assert(a.contains(b[0]));
        }
        assert(a =~= b);
    } else {
        assert(a.contains(a.last()));
        assert(b.contains(a.last()));
        let j = choose|j: int| 0 <= j < b.len() && b[j] == a.last();
        assert(b.contains(b.last()));
        let i = choose|i: int| 0 <= i < a.len() && a[i] == b.last();
        if j < b.len() - 1 {
            assert(before(location(b[j]), location(b.last())));
            if i < a.len() - 1 {
                assert(before(location(a[i]), location(a.last())));
                lemma_before_asymmetric(location(a.last()), location(b.last()));
            } else {
                lemma_before_irreflexive(location(a.last()));
            }
        }
        let rest = dom.remove(a.last());
        lemma_walk_drop_last(a, dom);
        lemma_walk_drop_last(b, dom);
        walk_is_unique(a.drop_last(), b.drop_last(), rest);
        assert(a =~= a.drop_last().push(a.last()));
        assert(b =~= b.drop_last().push(b.last()));
    }
}

/// A walk without its last key is the walk over the other keys.
pub(crate) proof fn lemma_walk_drop_last(a: Seq<u32>, dom: Set<u32>)
    requires
        is_walk(a, dom),
        a.len() > 0,
    ensures
        is_walk(a.drop_last(), dom.remove(a.last())),
{
    let rest = a.drop_last();
    assert forall|k: u32| dom.remove(a.last()).contains(k) <==> rest.contains(k) by {
        if dom.remove(a.last()).contains(k) {
            assert(a.contains(k));
            let i = choose|i: int| 0 <= i < a.len() && a[i] == k;
            assert(rest[i] == k);
        }
        if rest.contains(k) {
            let i = choose|i: int| 0 <= i < rest.len() && rest[i] == k;
            assert(a[i] == k);
            assert(a.contains(k));
            assert(before(location(a[i]), location(a[a.len() - 1])));
            lemma_before_irreflexive(location(k));
        }
    }
    assert forall|i: int, j: int| 0 <= i < j < rest.len() implies before(
        #[trigger] location(rest[i]),
        #[trigger] location(rest[j]),
    ) by {
        assert(before(location(a[i]), location(a[j])));
    }
}

impl<V> StorageMap<V> {
    /// A storage map without entries.
    pub fn new() -> (map: Self)
        ensures
            map.wf(),
            map@ == Map::<u32, V>::empty(),
    {
        let map = StorageMap { entries: Vec::new() };
        assert(map@ =~= Map::<u32, V>::empty());
        map
    }

    /// The index of the entry of `key`, or the number of entries.
    fn find(&self, key: u32) -> (index: usize)
        requires
            self.wf(),
        ensures
            index <= self.entries@.len(),
            index < self.entries@.len() ==> self.holds(key, index as int),
            index < self.entries@.len() <==> self@.contains_key(key),
    {
        let mut i: usize = 0;
        while i < self.entries.len()
            invariant
                i <= self.entries@.len(),
                self.wf(),
                forall|j: int| 0 <= j < i ==> (#[trigger] self.entries@[j]).key != key,
            decreases self.entries@.len() - i,
        {
            if self.entries[i].key == key {
                assert(self.holds(key, i as int));
                return i;
            }
            i = i + 1;
        }
        i
    }

    /// The value of `key`, if it has one.
    pub fn get(&self, key: u32) -> (value: Option<&V>)
        requires
            self.wf(),
        ensures
            match value {
                Some(v) => self@.contains_key(key) && *v == self@[key],
                None => !self@.contains_key(key),
            },
    {
        let i = self.find(key);
        if i < self.entries.len() {
            proof {
                self.lemma_holds(key, i as int);
            }
            Some(&self.entries[i].value)
        } else {
            None
        }
    }

    /// Whether `key` has a value.
    pub fn contains_key(&self, key: u32) -> (r: bool)
        requires
            self.wf(),
        ensures
            r == self@.contains_key(key),
    {
        self.find(key) < self.entries.len()
    }

    /// Gives `key` the value `value`.
    pub fn insert(&mut self, key: u32, value: V)
        requires
            old(self).wf(),
        ensures
            final(self).wf(),
            final(self)@ == old(self)@.insert(key, value),
    {
        let at = locate(key);
        let mut i: usize = 0;
        while i < self.entries.len() && is_before(&self.entries[i].at, &at)
            invariant
                i <= self.entries@.len(),
                *self == *old(self),
                self.wf(),
                at@ == location(key),
                at@.len() == 12,
                at@.subrange(8, 12) == encode(key),
                forall|j: int| 0 <= j < i ==> before((#[trigger] self.entries@[j]).at@, at@),
            decreases self.entries@.len() - i,
        {
            i = i + 1;
        }
        let ghost had = self.entries@;
        if i < self.entries.len() && self.entries[i].key == key {
            let _ = self.entries.remove(i);
            self.entries.insert(i, Entry { key, at, value });
            proof {
                self.lemma_replaced(*old(self), i as int);
            }
        } else {
            proof {
                if i < had.len() {
                    if had[i as int].at@ == at@ {
                        lemma_encode_injective(had[i as int].key, key);
                    }
                    assert forall|j: int| i <= j < had.len() implies before(
                        at@,
                        (#[trigger] had[j]).at@,
                    ) by {
                        if i < j {
                            lemma_before_transitive(at@, had[i as int].at@, had[j].at@);
                        }
                    }
                }
            }
            self.entries.insert(i, Entry { key, at, value });
            proof {
                self.lemma_inserted(*old(self), i as int);
            }
        }
    }

    /// Replacing the entry of a key replaces its value.
    proof fn lemma_replaced(self, old_map: Self, i: int)
        requires
            old_map.wf(),
            0 <= i < old_map.entries@.len(),
            self.entries@.len() == old_map.entries@.len(),
            self.entries@[i].key == old_map.entries@[i].key,
            self.entries@[i].at@ == old_map.entries@[i].at@,
            forall|j: int|
                0 <= j < old_map.entries@.len() && j != i ==> #[trigger] self.entries@[j]
                    == old_map.entries@[j],
        ensures
            self.wf(),
            self@ == old_map@.insert(self.entries@[i].key, self.entries@[i].value),
    {
        let key = self.entries@[i].key;
        let value = self.entries@[i].value;
        assert forall|j: int, k: int| 0 <= j < k < self.entries@.len() implies before(
            (#[trigger] self.entries@[j]).at@,
            (#[trigger] self.entries@[k]).at@,
        ) by {
            assert(before(old_map.entries@[j].at@, old_map.entries@[k].at@));
        }
        assert(self.wf());
        assert forall|k: u32| self@.contains_key(k) <==> #[trigger] old_map@.insert(
            key,
            value,
        ).contains_key(k) by {
            if self@.contains_key(k) {
                let j = choose|j: int| self.holds(k, j);
                assert(old_map.holds(k, j));
            }
            if old_map@.contains_key(k) {
                let j = choose|j: int| old_map.holds(k, j);
                assert(self.holds(k, j));
            }
            assert(self.holds(key, i));
        }
        assert forall|k: u32| #[trigger] self@.contains_key(k) implies self@[k] == old_map@.insert(
            key,
            value,
        )[k] by {
            let j = choose|j: int| self.holds(k, j);
            self.lemma_holds(k, j);
            if k == key {
                assert(self.holds(key, i));
            } else {
                assert(old_map.holds(k, j));
                old_map.lemma_holds(k, j);
            }
        }
        assert(self@ =~= old_map@.insert(key, value));
    }

    /// An entry put between those before it and those after it adds its key.
    proof fn lemma_inserted(self, old_map: Self, i: int)
        requires
            old_map.wf(),
            0 <= i <= old_map.entries@.len(),
            0 <= i < self.entries@.len(),
            self.entries@ == old_map.entries@.insert(i, self.entries@[i]),
            self.entries@[i].at@ == location(self.entries@[i].key),
            self.entries@[i].at@.len() == 12,
            self.entries@[i].at@.subrange(8, 12) == encode(self.entries@[i].key),
            forall|j: int|
                0 <= j < i ==> before((#[trigger] old_map.entries@[j]).at@, self.entries@[i].at@),
            forall|j: int|
                i <= j < old_map.entries@.len() ==> before(
                    self.entries@[i].at@,
                    (#[trigger] old_map.entries@[j]).at@,
                ),
        ensures
            self.wf(),
            self@ == old_map@.insert(self.entries@[i].key, self.entries@[i].value),
    {
        let key = self.entries@[i].key;
        let value = self.entries@[i].value;
        assert forall|j: int| 0 <= j < self.entries@.len() implies {
            &&& (#[trigger] self.entries@[j]).at@ == location(self.entries@[j].key)
            &&& self.entries@[j].at@.len() == 12
            &&& self.entries@[j].at@.subrange(8, 12) == encode(self.entries@[j].key)
        } by {
            if j < i {
                assert(self.entries@[j] == old_map.entries@[j]);
            } else if j > i {
                assert(self.entries@[j] == old_map.entries@[j - 1]);
            }
        }
        assert forall|j: int, k: int| 0 <= j < k < self.entries@.len() implies before(
            (#[trigger] self.entries@[j]).at@,
            (#[trigger] self.entries@[k]).at@,
        ) by {
            if j < i {
                assert(self.entries@[j] == old_map.entries@[j]);
            } else if j > i {
                assert(self.entries@[j] == old_map.entries@[j - 1]);
            }
            if k < i {
                assert(self.entries@[k] == old_map.entries@[k]);
            } else if k > i {
                assert(self.entries@[k] == old_map.entries@[k - 1]);
            }
        }
        assert(self.wf());
        assert(self.holds(key, i));
        assert forall|k: u32| self@.contains_key(k) <==> #[trigger] old_map@.insert(
            key,
            value,
        ).contains_key(k) by {
            if self@.contains_key(k) {
                let j = choose|j: int| self.holds(k, j);
                if j < i {
                    assert(old_map.holds(k, j));
                } else if j > i {
                    assert(old_map.holds(k, j - 1));
                }
            }
            if old_map@.contains_key(k) {
                let j = choose|j: int| old_map.holds(k, j);
                if j < i {
                    assert(self.holds(k, j));
                } else {
                    assert(self.holds(k, j + 1));
                }
            }
        }
        assert forall|k: u32| #[trigger] self@.contains_key(k) implies self@[k] == old_map@.insert(
            key,
            value,
        )[k] by {
            let j = choose|j: int| self.holds(k, j);
            self.lemma_holds(k, j);
            if j < i {
                assert(old_map.holds(k, j));
                old_map.lemma_holds(k, j);
                self.lemma_holds(key, i);
            } else if j > i {
                assert(old_map.holds(k, j - 1));
                old_map.lemma_holds(k, j - 1);
                self.lemma_holds(key, i);
            }
        }
        assert(self@ =~= old_map@.insert(key, value));
    }

    /// Removes the entry of `key` and hands out its value, if it has one.
    pub fn take(&mut self, key: u32) -> (value: Option<V>)
        requires
            old(self).wf(),
        ensures
            final(self).wf(),
            final(self)@ == old(self)@.remove(key),
            match value {
                Some(v) => old(self)@.contains_key(key) && v == old(self)@[key],
                None => !old(self)@.contains_key(key),
            },
    {
        let i = self.find(key);
        if i < self.entries.len() {
            proof {
                self.lemma_holds(key, i as int);
            }
            let entry = self.entries.remove(i);
            proof {
                self.lemma_removed(*old(self), i as int);
            }
            Some(entry.value)
        } else {
            assert(self@ =~= old(self)@.remove(key));
            None
        }
    }

    /// Dropping an entry drops its key.
    proof fn lemma_removed(self, old_map: Self, i: int)
        requires
            old_map.wf(),
            0 <= i < old_map.entries@.len(),
            self.entries@ == old_map.entries@.remove(i),
        ensures
            self.wf(),
            self@ == old_map@.remove(old_map.entries@[i].key),
    {
        let key = old_map.entries@[i].key;
        assert forall|j: int| 0 <= j < self.entries@.len() implies {
            &&& (#[trigger] self.entries@[j]).at@ == location(self.entries@[j].key)
            &&& self.entries@[j].at@.len() == 12
            &&& self.entries@[j].at@.subrange(8, 12) == encode(self.entries@[j].key)
        } by {
            let o = if j < i { j } else { j + 1 };
            assert(self.entries@[j] == old_map.entries@[o]);
        }
        assert forall|j: int, k: int| 0 <= j < k < self.entries@.len() implies before(
            (#[trigger] self.entries@[j]).at@,
            (#[trigger] self.entries@[k]).at@,
        ) by {
            let o = if j < i { j } else { j + 1 };
            let p = if k < i { k } else { k + 1 };
            assert(self.entries@[j] == old_map.entries@[o]);
            assert(self.entries@[k] == old_map.entries@[p]);
        }
        assert(self.wf());
        assert(old_map.holds(key, i));
        assert forall|k: u32| self@.contains_key(k) <==> #[trigger] old_map@.remove(
            key,
        ).contains_key(k) by {
            if self@.contains_key(k) {
                let j = choose|j: int| self.holds(k, j);
                let o = if j < i { j } else { j + 1 };
                assert(old_map.holds(k, o));
                old_map.lemma_holds(key, i);
            }
            if old_map@.contains_key(k) && k != key {
                let j = choose|j: int| old_map.holds(k, j);
                let n = if j < i { j } else { j - 1 };
                assert(self.holds(k, n));
            }
        }
        assert forall|k: u32| #[trigger] self@.contains_key(k) implies self@[k] == old_map@.remove(
            key,
        )[k] by {
            let j = choose|j: int| self.holds(k, j);
            self.lemma_holds(k, j);
            let o = if j < i { j } else { j + 1 };
            assert(old_map.holds(k, o));
            old_map.lemma_holds(k, o);
        }
        assert(self@ =~= old_map@.remove(key));
    }

    /// Removes every entry.
    pub fn drain(&mut self)
        ensures
            final(self).wf(),
            final(self)@ == Map::<u32, V>::empty(),
    {
        self.entries.clear();
        assert(self@ =~= Map::<u32, V>::empty());
    }

    /// The number of entries.
    pub fn len(&self) -> (len: usize)
        ensures
            len == self.keys().len(),
    {
        self.entries.len()
    }

    /// The keys in the order of the storage.
    pub fn list_keys(&self) -> (keys: Vec<u32>)
        ensures
            keys@ == self.keys(),
    {
        let mut keys: Vec<u32> = Vec::new();
        for i in 0..self.entries.len()
            invariant
                keys@ == self.keys().take(i as int),
        {
            keys.push(self.entries[i].key);
            assert(self.keys().take(i + 1) =~= self.keys().take(i as int).push(
                self.keys()[i as int],
            ));
        }
        assert(keys@ =~= self.keys());
        keys
    }

    /// The key and the value of the `index`th entry of the walk.
    pub fn entry(&self, index: usize) -> (entry: (u32, &V))
        requires
            self.wf(),
            index < self.keys().len(),
        ensures
            entry.0 == self.keys()[index as int],
            self@.contains_key(entry.0),
            *entry.1 == self@[entry.0],
    {
        proof {
            assert(self.holds(self.entries@[index as int].key, index as int));
            self.lemma_holds(self.entries@[index as int].key, index as int);
        }
        (self.entries[index].key, &self.entries[index].value)
    }
}

} // verus!
