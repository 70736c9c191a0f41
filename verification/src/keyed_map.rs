//! Hash maps with entries that can be walked by position.
//!
//! A map keeps its entries in vectors and finds them through a hash index from keys to
//! positions. One index for each kind of key serves values of every type, and the entries
//! have an order in which they can be walked, which a hash map alone leaves open.

use crate::types::bytes::Bytes32;
use rapidhash::RapidHashMap;
use vstd::prelude::*;

verus! {

/// A hash index from 32-byte keys to positions: a [`RapidHashMap`].
#[verifier::external_body]
pub struct RootIndex {
    inner: RapidHashMap<[u8; 32], usize>,
}

/// A hash index from numbers to positions: a [`RapidHashMap`].
#[verifier::external_body]
pub struct NumberIndex {
    inner: RapidHashMap<usize, usize>,
}

/// A hash index from names to positions: a [`RapidHashMap`].
#[verifier::external_body]
pub struct NameIndex {
    inner: RapidHashMap<String, usize>,
}

/// The entries of a [`RootIndex`].
pub uninterp spec fn root_index_entries(index: RootIndex) -> Map<Seq<u8>, usize>;

/// The entries of a [`NumberIndex`].
pub uninterp spec fn number_index_entries(index: NumberIndex) -> Map<usize, usize>;

/// The entries of a [`NameIndex`].
pub uninterp spec fn name_index_entries(index: NameIndex) -> Map<Seq<char>, usize>;

/// `RapidHashMap::default`: an index without entries.
#[verifier::external_body]
fn root_index_new() -> (r: RootIndex)
    ensures
        root_index_entries(r).dom() == Set::<Seq<u8>>::empty(),
{
    RootIndex { inner: RapidHashMap::default() }
}

/// `RapidHashMap::get`: the value of the entry under the key, if there is one.
#[verifier::external_body]
fn root_index_get(index: &RootIndex, key: &[u8; 32]) -> (r: Option<usize>)
    ensures
        r == (if root_index_entries(*index).contains_key(key@) {
            Some(root_index_entries(*index)[key@])
        } else {
            None
        }),
{
    index.inner.get(key).copied()
}

/// `RapidHashMap::insert`: sets the value under the key.
#[verifier::external_body]
fn root_index_insert(index: &mut RootIndex, key: [u8; 32], value: usize)
    ensures
        root_index_entries(*final(index)) == root_index_entries(*old(index)).insert(key@, value),
{
    index.inner.insert(key, value);
}

/// `RapidHashMap::remove`: drops the entry under the key.
#[verifier::external_body]
fn root_index_remove(index: &mut RootIndex, key: &[u8; 32])
    ensures
        root_index_entries(*final(index)) == root_index_entries(*old(index)).remove(key@),
{
    index.inner.remove(key);
}

/// `RapidHashMap::default`: an index without entries.
#[verifier::external_body]
fn number_index_new() -> (r: NumberIndex)
    ensures
        number_index_entries(r).dom() == Set::<usize>::empty(),
{
    NumberIndex { inner: RapidHashMap::default() }
}

/// `RapidHashMap::get`: the value of the entry under the key, if there is one.
#[verifier::external_body]
fn number_index_get(index: &NumberIndex, key: usize) -> (r: Option<usize>)
    ensures
        r == (if number_index_entries(*index).contains_key(key) {
            Some(number_index_entries(*index)[key])
        } else {
            None
        }),
{
    index.inner.get(&key).copied()
}

/// `RapidHashMap::insert`: sets the value under the key.
#[verifier::external_body]
fn number_index_insert(index: &mut NumberIndex, key: usize, value: usize)
    ensures
        number_index_entries(*final(index)) == number_index_entries(*old(index)).insert(key, value),
{
    index.inner.insert(key, value);
}

/// `RapidHashMap::remove`: drops the entry under the key.
#[verifier::external_body]
fn number_index_remove(index: &mut NumberIndex, key: usize)
    ensures
        number_index_entries(*final(index)) == number_index_entries(*old(index)).remove(key),
{
    index.inner.remove(&key);
}

/// `RapidHashMap::default`: an index without entries.
#[verifier::external_body]
fn name_index_new() -> (r: NameIndex)
    ensures
        name_index_entries(r).dom() == Set::<Seq<char>>::empty(),
{
    NameIndex { inner: RapidHashMap::default() }
}

/// `RapidHashMap::get`: the value of the entry under the key, if there is one.
#[verifier::external_body]
fn name_index_get(index: &NameIndex, key: &String) -> (r: Option<usize>)
    ensures
        r == (if name_index_entries(*index).contains_key(key@) {
            Some(name_index_entries(*index)[key@])
        } else {
            None
        }),
{
    index.inner.get(key).copied()
}

/// `RapidHashMap::insert`: sets the value under the key.
#[verifier::external_body]
fn name_index_insert(index: &mut NameIndex, key: &String, value: usize)
    ensures
        name_index_entries(*final(index)) == name_index_entries(*old(index)).insert(key@, value),
{
    index.inner.insert(key.clone(), value);
}

/// `RapidHashMap::remove`: drops the entry under the key.
#[verifier::external_body]
fn name_index_remove(index: &mut NameIndex, key: &String)
    ensures
        name_index_entries(*final(index)) == name_index_entries(*old(index)).remove(key@),
{
    index.inner.remove(key);
}

/// A hash index from keys to positions.
pub trait KeyIndex: Sized {
    /// What is looked up.
    type Key;

    /// The value of a key.
    type Kv;

    /// The value of a key.
    spec fn kv(k: Self::Key) -> Self::Kv;

    /// The entries.
    spec fn entries(&self) -> Map<Self::Kv, usize>;

    /// An index without entries.
    fn fresh() -> (r: Self)
        ensures
            r.entries() == Map::<Self::Kv, usize>::empty(),
    ;

    /// The position under a key.
    fn find(&self, key: &Self::Key) -> (r: Option<usize>)
        ensures
            r == (if self.entries().contains_key(Self::kv(*key)) {
                Some(self.entries()[Self::kv(*key)])
            } else {
                None
            }),
    ;

    /// Sets the position under a key.
    fn put(&mut self, key: &Self::Key, at: usize)
        ensures
            final(self).entries() == old(self).entries().insert(Self::kv(*key), at),
    ;

    /// Drops the position under a key.
    fn erase(&mut self, key: &Self::Key)
        ensures
            final(self).entries() == old(self).entries().remove(Self::kv(*key)),
    ;
}

impl KeyIndex for RootIndex {
    type Key = Bytes32;

    type Kv = Bytes32;

    open spec fn kv(k: Bytes32) -> Bytes32 {
        k
    }

    closed spec fn entries(&self) -> Map<Bytes32, usize> {
        Map::new(
            |k: Bytes32| root_index_entries(*self).contains_key(k@),
            |k: Bytes32| root_index_entries(*self)[k@],
        )
    }

    fn fresh() -> (r: Self) {
        let r = root_index_new();
        assert(r.entries() =~= Map::<Bytes32, usize>::empty());
        r
    }

    fn find(&self, key: &Bytes32) -> (r: Option<usize>) {
        root_index_get(self, &key.0)
    }

    fn put(&mut self, key: &Bytes32, at: usize) {
        let ghost before = *self;
        root_index_insert(self, key.0, at);
        proof {
            assert forall|k: Bytes32| k@ == key@ implies k == *key by {
                Bytes32::lemma_ext(k, *key);
            }
            assert(self.entries() =~= before.entries().insert(*key, at));
        }
    }

    fn erase(&mut self, key: &Bytes32) {
        let ghost before = *self;
        root_index_remove(self, &key.0);
        proof {
            assert forall|k: Bytes32| k@ == key@ implies k == *key by {
                Bytes32::lemma_ext(k, *key);
            }
            assert(self.entries() =~= before.entries().remove(*key));
        }
    }
}

impl KeyIndex for NumberIndex {
    type Key = usize;

    type Kv = usize;

    open spec fn kv(k: usize) -> usize {
        k
    }

    closed spec fn entries(&self) -> Map<usize, usize> {
        number_index_entries(*self)
    }

    fn fresh() -> (r: Self) {
        let r = number_index_new();
        assert(r.entries() =~= Map::<usize, usize>::empty());
        r
    }

    fn find(&self, key: &usize) -> (r: Option<usize>) {
        number_index_get(self, *key)
    }

    fn put(&mut self, key: &usize, at: usize) {
        number_index_insert(self, *key, at);
    }

    fn erase(&mut self, key: &usize) {
        number_index_remove(self, *key);
    }
}

impl KeyIndex for NameIndex {
    type Key = String;

    type Kv = Seq<char>;

    open spec fn kv(k: String) -> Seq<char> {
        k@
    }

    closed spec fn entries(&self) -> Map<Seq<char>, usize> {
        name_index_entries(*self)
    }

    fn fresh() -> (r: Self) {
        let r = name_index_new();
        assert(r.entries() =~= Map::<Seq<char>, usize>::empty());
        r
    }

    fn find(&self, key: &String) -> (r: Option<usize>) {
        name_index_get(self, key)
    }

    fn put(&mut self, key: &String, at: usize) {
        name_index_insert(self, key, at);
    }

    fn erase(&mut self, key: &String) {
        name_index_remove(self, key);
    }
}

/// A map from keys to values. Its view is the map; the order in which the entries are kept
/// and walked is [`KeyedMap::key_seq`].
pub struct KeyedMap<I: KeyIndex, V> {
    index: I,
    keys: Vec<I::Key>,
    values: Vec<V>,
}

/// A map from roots to values.
pub type RootMap<V> = KeyedMap<RootIndex, V>;

/// A map from numbers to values.
pub type NumberMap<V> = KeyedMap<NumberIndex, V>;

/// A map from names to values.
pub type NameMap<V> = KeyedMap<NameIndex, V>;

/// The keys without one of them: the last key takes its place.
pub open spec fn keys_without<K>(keys: Seq<K>, k: K) -> Seq<K> {
    if keys.contains(k) {
        keys.update(keys.index_of(k), keys.last()).drop_last()
    } else {
        keys
    }
}

impl<I: KeyIndex, V> View for KeyedMap<I, V> {
    type V = Map<I::Kv, V>;

    closed spec fn view(&self) -> Map<I::Kv, V> {
        Map::new(
            |k: I::Kv| self.index.entries().contains_key(k),
            |k: I::Kv| self.values@[self.index.entries()[k] as int],
        )
    }
}

impl<I: KeyIndex, V> KeyedMap<I, V> {
    /// The index points at the entries: every key is found at its own position.
    pub closed spec fn wf(&self) -> bool {
        let m = self.index.entries();
        &&& self.keys@.len() == self.values@.len()
        &&& forall|i: int|
            #![trigger self.keys@[i]]
            0 <= i < self.keys@.len() ==> m.contains_key(I::kv(self.keys@[i]))
                && m[I::kv(self.keys@[i])] == i
        &&& forall|k: I::Kv| #[trigger]
            m.contains_key(k) ==> m[k] < self.keys@.len() && I::kv(self.keys@[m[k] as int]) == k
    }

    /// The keys in the order in which entries are kept.
    pub closed spec fn key_seq(&self) -> Seq<I::Kv> {
        Seq::new(self.keys@.len(), |i: int| I::kv(self.keys@[i]))
    }

    /// A map without entries.
    pub fn new() -> (r: Self)
        ensures
            r.wf(),
            r@ == Map::<I::Kv, V>::empty(),
            r.key_seq() == Seq::<I::Kv>::empty(),
    {
        let r = KeyedMap { index: I::fresh(), keys: Vec::new(), values: Vec::new() };
        assert(r@ =~= Map::<I::Kv, V>::empty());
        assert(r.key_seq() =~= Seq::<I::Kv>::empty());
        r
    }

    /// The keys are distinct, and they are the keys of the map.
    pub proof fn lemma_keys(&self)
        requires
            self.wf(),
        ensures
            self.key_seq().no_duplicates(),
            forall|i: int|
                0 <= i < self.key_seq().len() ==> self@.contains_key(
                    #[trigger] self.key_seq()[i],
                ),
            forall|k: I::Kv| #[trigger]
                self@.contains_key(k) ==> exists|i: int|
                    0 <= i < self.key_seq().len() && self.key_seq()[i] == k,
    {
        assert forall|i: int| 0 <= i < self.key_seq().len() implies self@.contains_key(
            #[trigger] self.key_seq()[i],
        ) by {
            assert(self.index.entries().contains_key(I::kv(self.keys@[i])));
        }
        assert forall|i: int, j: int|
            0 <= i < j < self.key_seq().len() implies self.key_seq()[i] != self.key_seq()[j] by {
            assert(self.index.entries()[I::kv(self.keys@[i])] == i);
            assert(self.index.entries()[I::kv(self.keys@[j])] == j);
        }
        assert forall|k: I::Kv| #[trigger] self@.contains_key(k) implies exists|i: int|
            0 <= i < self.key_seq().len() && self.key_seq()[i] == k by {
            let i = self.index.entries()[k] as int;
            assert(self.index.entries().contains_key(k));
            assert(self.key_seq()[i] == k);
        }
    }

    /// The map has as many keys as entries.
    pub proof fn lemma_len(&self)
        requires
            self.wf(),
        ensures
            self@.dom().finite(),
            self@.dom().len() == self.key_seq().len(),
    {
        self.lemma_keys();
        let keys = self.key_seq();
        assert(keys.to_set() =~= self@.dom()) by {
            assert forall|k: I::Kv| self@.dom().contains(k) implies keys.to_set().contains(k) by {
                let i = choose|i: int| 0 <= i < keys.len() && keys[i] == k;
                assert(keys.contains(keys[i]));
            }
        }
        keys.unique_seq_to_set();
    }

    /// The number of entries.
    pub fn len(&self) -> (r: usize)
        ensures
            r == self.key_seq().len(),
    {
        self.keys.len()
    }

    /// The key of the entry at a position.
    pub fn key_at(&self, i: usize) -> (r: &I::Key)
        requires
            self.wf(),
            i < self.key_seq().len(),
        ensures
            I::kv(*r) == self.key_seq()[i as int],
            self@.contains_key(I::kv(*r)),
    {
        proof {
            self.lemma_keys();
        }
        &self.keys[i]
    }

    /// The value of the entry at a position.
    pub fn value_at(&self, i: usize) -> (r: &V)
        requires
            self.wf(),
            i < self.key_seq().len(),
        ensures
            self@.contains_key(self.key_seq()[i as int]),
            *r == self@[self.key_seq()[i as int]],
    {
        proof {
            self.lemma_keys();
            assert(self.index.entries()[I::kv(self.keys@[i as int])] == i);
        }
        &self.values[i]
    }

    /// True when the key has an entry.
    pub fn contains(&self, key: &I::Key) -> (r: bool)
        requires
            self.wf(),
        ensures
            r == self@.contains_key(I::kv(*key)),
    {
        self.index.find(key).is_some()
    }

    /// The value under the key.
    pub fn get(&self, key: &I::Key) -> (r: Option<&V>)
        requires
            self.wf(),
        ensures
            match r {
                Some(v) => self@.contains_key(I::kv(*key)) && *v == self@[I::kv(*key)],
                None => !self@.contains_key(I::kv(*key)),
            },
    {
        match self.index.find(key) {
            Some(i) => Some(&self.values[i]),
            None => None,
        }
    }

    /// Sets the value under the key.
    pub fn insert(&mut self, key: I::Key, value: V)
        requires
            old(self).wf(),
        ensures
            final(self).wf(),
            final(self)@ == old(self)@.insert(I::kv(key), value),
            final(self).key_seq() == (if old(self)@.contains_key(I::kv(key)) {
                old(self).key_seq()
            } else {
                old(self).key_seq().push(I::kv(key))
            }),
    {
        let ghost before = *self;
        let ghost kv = I::kv(key);
        match self.index.find(&key) {
            Some(i) => {
                self.values[i] = value;
                proof {
                    assert(self.key_seq() =~= before.key_seq());
                    assert(self@ =~= before@.insert(kv, value));
                }
            },
            None => {
                let i: usize = self.keys.len();
                self.index.put(&key, i);
                self.keys.push(key);
                self.values.push(value);
                proof {
                    let m = self.index.entries();
                    let m0 = before.index.entries();
                    assert forall|j: int| 0 <= j < self.keys@.len() implies m.contains_key(
                        I::kv(#[trigger] self.keys@[j]),
                    ) && m[I::kv(self.keys@[j])] == j by {
                        if j < i {
                            assert(self.keys@[j] == before.keys@[j]);
                            assert(m0.contains_key(I::kv(before.keys@[j])));
                        }
                    }
                    assert forall|k: I::Kv| #[trigger] m.contains_key(k) implies m[k]
                        < self.keys@.len() && I::kv(self.keys@[m[k] as int]) == k by {
                        if k != kv {
                            assert(m0.contains_key(k));
                        }
                    }
                    assert forall|k: I::Kv| self@.contains_key(k) implies self@[k]
                        == before@.insert(kv, value)[k] by {
                        if k != kv {
                            assert(m0.contains_key(k));
                        }
                    }
                    assert(self@ =~= before@.insert(kv, value));
                    assert(self.key_seq() =~= before.key_seq().push(kv));
                }
            },
        }
    }

    /// Drops the entry under the key.
    pub fn remove(&mut self, key: &I::Key)
        requires
            old(self).wf(),
        ensures
            final(self).wf(),
            final(self)@ == old(self)@.remove(I::kv(*key)),
            final(self).key_seq() == keys_without(old(self).key_seq(), I::kv(*key)),
    {
        let ghost before = *self;
        let ghost kv = I::kv(*key);
        proof {
            self.lemma_keys();
        }
        match self.index.find(key) {
            None => {
                assert(self@ =~= before@.remove(kv));
                assert(!before.key_seq().contains(kv));
            },
            Some(i) => {
                let last: usize = self.keys.len() - 1;
                let ghost moved = I::kv(self.keys@[last as int]);
                self.index.erase(key);
                if i != last {
                    self.index.put(&self.keys[last], i);
                }
                self.keys.swap_remove(i);
                self.values.swap_remove(i);
                proof {
                    let m = self.index.entries();
                    let m0 = before.index.entries();
                    assert(I::kv(before.keys@[i as int]) == kv);
                    assert(m0[I::kv(before.keys@[last as int])] == last);
                    assert forall|j: int| 0 <= j < self.keys@.len() implies m.contains_key(
                        I::kv(#[trigger] self.keys@[j]),
                    ) && m[I::kv(self.keys@[j])] == j by {
                        if j != i {
                            assert(self.keys@[j] == before.keys@[j]);
                            assert(m0[I::kv(before.keys@[j])] == j);
                        } else {
                            assert(self.keys@[j] == before.keys@[last as int]);
                        }
                    }
                    assert forall|k: I::Kv| #[trigger] m.contains_key(k) implies m[k]
                        < self.keys@.len() && I::kv(self.keys@[m[k] as int]) == k by {
                        if i != last && k == moved {
                        } else {
                            assert(m0.contains_key(k));
                            assert(m0[k] != i);
                            if m0[k] == last {
                                assert(I::kv(before.keys@[last as int]) == k);
                            }
                        }
                    }
                    assert forall|k: I::Kv| self@.contains_key(k) implies self@[k]
                        == before@.remove(kv)[k] by {
                        assert(m.contains_key(k));
                        if i != last && k == moved {
                        } else {
                            assert(m0.contains_key(k));
                            assert(m0[k] != i);
                            assert(m0[k] != last);
                        }
                    }
                    assert(self@ =~= before@.remove(kv));
                    let keys = before.key_seq();
                    assert(keys[i as int] == kv);
                    assert(keys.index_of(kv) == i);
                    assert(self.key_seq() =~= keys_without(keys, kv));
                }
            },
        }
    }
}

/// A map from roots in terms of the views of its values.
pub open spec fn view_map<V: View>(m: Map<Bytes32, V>) -> Map<Bytes32, V::V> {
    Map::new(|k: Bytes32| m.contains_key(k), |k: Bytes32| m[k]@)
}

} // verus!
