//! Collections keyed by the canonical string of a task key.
//!
//! Hashing is done by `hashbrown`. A [`KeyIndex`] remembers at which position
//! a key was stored and a [`KeySet`] remembers a set of keys; a [`TaskMap`]
//! puts an index in front of two vectors and so keeps its entries in the
//! order in which they were inserted.

use crate::taskkey::{KeyView, TaskKey};
use vstd::prelude::*;

verus! {

/// A `hashbrown::HashMap` from canonical key strings to positions.
#[verifier::external_body]
pub struct KeyIndex {
    inner: hashbrown::HashMap<String, usize>,
}

/// The entries that a [`KeyIndex`] holds.
pub uninterp spec fn key_index_entries(index: KeyIndex) -> Map<Seq<char>, usize>;

/// The map without entries.
pub open spec fn no_entries() -> Map<Seq<char>, usize> {
    Map::empty()
}

/// Calls `hashbrown::HashMap::new`, which makes a map without entries.
#[verifier::external_body]
fn key_index_new() -> (fresh: KeyIndex)
    ensures
        key_index_entries(fresh) == no_entries(),
{
    KeyIndex { inner: hashbrown::HashMap::new() }
}

/// Calls `hashbrown::HashMap::insert`, which stores the value under the key
/// and hands back the value that the key had before, if it had one.
#[verifier::external_body]
fn key_index_insert(index: &mut KeyIndex, key: String, slot: usize) -> (prev: Option<usize>)
    ensures
        key_index_entries(*final(index)) == key_index_entries(*old(index)).insert(key@, slot),
        prev.is_some() == key_index_entries(*old(index)).contains_key(key@),
        prev.is_some() ==> prev.unwrap() == key_index_entries(*old(index))[key@],
{
    index.inner.insert(key, slot)
}

/// Calls `hashbrown::HashMap::get`, which finds the value stored under the
/// key, if there is one.
#[verifier::external_body]
fn key_index_get(index: &KeyIndex, key: &str) -> (found: Option<usize>)
    ensures
        found.is_some() == key_index_entries(*index).contains_key(key@),
        found.is_some() ==> found.unwrap() == key_index_entries(*index)[key@],
{
    index.inner.get(key).copied()
}

/// A `hashbrown::HashSet` of canonical key strings.
#[verifier::external_body]
pub struct KeySet {
    inner: hashbrown::HashSet<String>,
}

/// The strings that a [`KeySet`] holds.
pub uninterp spec fn key_set_members(set: KeySet) -> Set<Seq<char>>;

/// The set without members.
pub open spec fn no_members() -> Set<Seq<char>> {
    Set::empty()
}

/// Calls `hashbrown::HashSet::new`, which makes a set without members.
#[verifier::external_body]
fn key_set_new() -> (fresh: KeySet)
    ensures
        key_set_members(fresh) == no_members(),
{
    KeySet { inner: hashbrown::HashSet::new() }
}

/// Calls `hashbrown::HashSet::insert`, which adds the value and says whether
/// it was new.
#[verifier::external_body]
fn key_set_insert(set: &mut KeySet, key: String) -> (fresh: bool)
    ensures
        key_set_members(*final(set)) == key_set_members(*old(set)).insert(key@),
        fresh == !key_set_members(*old(set)).contains(key@),
{
    set.inner.insert(key)
}

/// Calls `hashbrown::HashSet::remove`, which takes the value out and says
/// whether it was there.
#[verifier::external_body]
fn key_set_remove(set: &mut KeySet, key: &str) -> (was_there: bool)
    ensures
        key_set_members(*final(set)) == key_set_members(*old(set)).remove(key@),
        was_there == key_set_members(*old(set)).contains(key@),
{
    set.inner.remove(key)
}

/// Calls `hashbrown::HashSet::contains`, which says whether the value is in
/// the set.
#[verifier::external_body]
fn key_set_contains(set: &KeySet, key: &str) -> (found: bool)
    ensures
        found == key_set_members(*set).contains(key@),
{
    set.inner.contains(key)
}

/// The keys that are on the path from a root to the entry being expanded.
pub struct KeyPath {
    set: KeySet,
}

impl View for KeyPath {
    type V = Set<Seq<char>>;

    closed spec fn view(&self) -> Set<Seq<char>> {
        key_set_members(self.set)
    }
}

impl KeyPath {
    /// The empty path.
    pub fn new() -> (path: KeyPath)
        ensures
            path@ == no_members(),
    {
        KeyPath { set: key_set_new() }
    }

    /// Whether `key` is on the path.
    pub fn contains(&self, key: &TaskKey) -> (found: bool)
        ensures
            found == self@.contains(key.ident()),
    {
        key_set_contains(&self.set, key.as_str())
    }

    /// Puts `key` on the path.
    pub fn enter(&mut self, key: &TaskKey)
        ensures
            final(self)@ == old(self)@.insert(key.ident()),
    {
        let _ = key_set_insert(&mut self.set, key.as_string().clone());
    }

    /// Takes `key` off the path.
    pub fn leave(&mut self, key: &TaskKey)
        ensures
            final(self)@ == old(self)@.remove(key.ident()),
    {
        let _ = key_set_remove(&mut self.set, key.as_str());
    }
}

/// The views of a sequence of keys.
pub open spec fn key_views(keys: Seq<TaskKey>) -> Seq<KeyView> {
    Seq::new(keys.len(), |i: int| keys[i]@)
}

/// A map from task keys to values that remembers the order of insertion.
/// Two keys are the same key when their canonical strings are equal.
pub struct TaskMap<V> {
    index: KeyIndex,
    keys: Vec<TaskKey>,
    values: Vec<V>,
}

impl<V> TaskMap<V> {
    /// The position of each key, by canonical string.
    pub closed spec fn entries(&self) -> Map<Seq<char>, usize> {
        key_index_entries(self.index)
    }

    /// The keys, in the order of insertion.
    pub closed spec fn keys(&self) -> Seq<TaskKey> {
        self.keys@
    }

    /// The values, in the order in which their keys were inserted.
    pub closed spec fn values(&self) -> Seq<V> {
        self.values@
    }

    /// The invariant of the map: the index holds exactly the keys, each with
    /// its own position.
    pub open spec fn wf(&self) -> bool {
        well_indexed(self.entries(), self.keys()) && self.values().len() == self.keys().len()
    }

    /// Whether `key` has a value.
    pub open spec fn spec_contains(&self, key: Seq<char>) -> bool {
        self.entries().contains_key(key)
    }

    /// The value of `key`.
    pub open spec fn spec_get(&self, key: Seq<char>) -> V
        recommends
            self.spec_contains(key),
    {
        self.values()[self.entries()[key] as int]
    }

    /// The number of entries.
    pub open spec fn spec_len(&self) -> nat {
        self.keys().len()
    }

    /// The map without entries.
    pub fn new() -> (map: TaskMap<V>)
        ensures
            map.wf(),
            map.spec_len() == 0,
            map.entries() == no_entries(),
    {
        TaskMap { index: key_index_new(), keys: Vec::new(), values: Vec::new() }
    }

    /// The number of entries.
    pub fn len(&self) -> (n: usize)
        requires
            self.wf(),
        ensures
            n == self.spec_len(),
    {
        self.keys.len()
    }

    /// The position at which `key` is stored, if it is.
    pub fn position(&self, key: &TaskKey) -> (pos: Option<usize>)
        requires
            self.wf(),
        ensures
            pos.is_some() == self.spec_contains(key.ident()),
            pos.is_some() ==> pos.unwrap() == self.entries()[key.ident()],
            pos.is_some() ==> pos.unwrap() < self.spec_len(),
            pos.is_some() ==> self.keys()[pos.unwrap() as int].ident() == key.ident(),
    {
        key_index_get(&self.index, key.as_str())
    }

    /// Whether `key` has a value.
    pub fn contains_key(&self, key: &TaskKey) -> (found: bool)
        requires
            self.wf(),
        ensures
            found == self.spec_contains(key.ident()),
    {
        self.position(key).is_some()
    }

    /// The value of `key`, if it has one.
    pub fn get(&self, key: &TaskKey) -> (value: Option<&V>)
        requires
            self.wf(),
        ensures
            value.is_some() == self.spec_contains(key.ident()),
            value.is_some() ==> *value.unwrap() == self.spec_get(key.ident()),
    {
        match self.position(key) {
            Some(i) => Some(&self.values[i]),
            None => None,
        }
    }

    /// The key stored at position `i`.
    pub fn key_at(&self, i: usize) -> (key: &TaskKey)
        requires
            self.wf(),
            i < self.spec_len(),
        ensures
            *key == self.keys()[i as int],
    {
        &self.keys[i]
    }

    /// The value stored at position `i`.
    pub fn value_at(&self, i: usize) -> (value: &V)
        requires
            self.wf(),
            i < self.spec_len(),
        ensures
            *value == self.values()[i as int],
    {
        &self.values[i]
    }

    /// Stores `value` under `key`. A key that is new goes to the end; a key
    /// that is already there keeps its place and its old value is handed
    /// back.
    pub fn insert(&mut self, key: TaskKey, value: V) -> (prev: Option<V>)
        requires
            old(self).wf(),
        ensures
            final(self).wf(),
            prev.is_some() == old(self).spec_contains(key.ident()),
            prev.is_some() ==> prev.unwrap() == old(self).spec_get(key.ident()),
            prev.is_some() ==> final(self).entries() == old(self).entries(),
            prev.is_some() ==> final(self).keys() == old(self).keys(),
            prev.is_some() ==> final(self).values() == old(self).values().update(
                old(self).entries()[key.ident()] as int,
                value,
            ),
            prev.is_none() ==> final(self).entries() == old(self).entries().insert(
                key.ident(),
                old(self).spec_len() as usize,
            ),
            prev.is_none() ==> final(self).keys() == old(self).keys().push(key),
            prev.is_none() ==> final(self).values() == old(self).values().push(value),
            final(self).spec_contains(key.ident()),
            final(self).spec_get(key.ident()) == value,
            forall|s: Seq<char>|
                final(self).spec_contains(s) <==> old(self).spec_contains(s) || s == key.ident(),
            forall|s: Seq<char>|
                old(self).spec_contains(s) && s != key.ident() ==> final(self).spec_get(s) == old(
                    self,
                ).spec_get(s),
    {
        match self.position(&key) {
            Some(i) => {
                self.values.push(value);
                let prev = self.values.swap_remove(i);
                assert(self.values@ =~= old(self).values@.update(i as int, value));
                Some(prev)
            },
            None => {
                let n = self.keys.len();
                let _ = key_index_insert(&mut self.index, key.as_string().clone(), n);
                self.keys.push(key);
                self.values.push(value);
                proof {
                    lemma_well_indexed_push(old(self).entries(), old(self).keys(), key);
                }
                None
            },
        }
    }

    /// Gives up the map for its keys and values, position by position.
    pub fn into_parts(self) -> (parts: (KeyIndex, Vec<TaskKey>, Vec<V>))
        requires
            self.wf(),
        ensures
            key_index_entries(parts.0) == self.entries(),
            parts.1@ == self.keys(),
            parts.2@ == self.values(),
    {
        (self.index, self.keys, self.values)
    }
}

/// The same values in the opposite order.
pub fn reversed<T>(values: Vec<T>) -> (rev: Vec<T>)
    ensures
        rev@.len() == values@.len(),
        forall|i: int| 0 <= i < rev@.len() ==> #[trigger] rev@[i] == values@[values@.len() - 1 - i],
{
    let mut values = values;
    let ghost all = values@;
    let mut rev: Vec<T> = Vec::new();
    while values.len() > 0
        invariant
            values@.len() + rev@.len() == all.len(),
            forall|i: int| 0 <= i < values@.len() ==> #[trigger] values@[i] == all[i],
            forall|i: int| 0 <= i < rev@.len() ==> #[trigger] rev@[i] == all[all.len() - 1 - i],
        decreases values@.len(),
    {
        let v = values.pop().unwrap();
        rev.push(v);
    }
    rev
}

/// Copies a list of keys.
pub fn copy_keys(keys: &Vec<TaskKey>) -> (copy: Vec<TaskKey>)
    ensures
        key_views(copy@) == key_views(keys@),
{
    let mut copy: Vec<TaskKey> = Vec::new();
    let mut i: usize = 0;
    while i < keys.len()
        invariant
            i <= keys@.len(),
            copy@.len() == i,
            forall|j: int| 0 <= j < i ==> (#[trigger] copy@[j])@ == keys@[j]@,
        decreases keys@.len() - i,
    {
        copy.push(keys[i].duplicate());
        i += 1;
    }
    assert(key_views(copy@) =~= key_views(keys@));
    copy
}

/// Looks `key` up in an index that was taken out of a [`TaskMap`].
pub fn lookup(index: &KeyIndex, key: &TaskKey) -> (pos: Option<usize>)
    ensures
        pos.is_some() == key_index_entries(*index).contains_key(key.ident()),
        pos.is_some() ==> pos.unwrap() == key_index_entries(*index)[key.ident()],
{
    key_index_get(index, key.as_str())
}

/// An index and a sequence of keys agree: the index holds exactly the
/// canonical strings of the keys, each with the position of its key.
pub open spec fn well_indexed(entries: Map<Seq<char>, usize>, keys: Seq<TaskKey>) -> bool {
    &&& forall|i: int| 0 <= i < keys.len() ==> entries.contains_key(#[trigger] keys[i].ident())
    &&& forall|i: int| 0 <= i < keys.len() ==> entries[#[trigger] keys[i].ident()] == i
    &&& forall|s: Seq<char>| #[trigger]
        entries.contains_key(s) ==> entries[s] < keys.len() && keys[entries[s] as int].ident() == s
}

/// In a well-indexed sequence no canonical string occurs twice.
pub proof fn lemma_well_indexed_distinct(
    entries: Map<Seq<char>, usize>,
    keys: Seq<TaskKey>,
    i: int,
    j: int,
)
    requires
        well_indexed(entries, keys),
        0 <= i < keys.len(),
        0 <= j < keys.len(),
        keys[i].ident() == keys[j].ident(),
    ensures
        i == j,
{
    assert(entries[keys[i].ident()] == i);
    assert(entries[keys[j].ident()] == j);
}

/// A new key keeps the agreement when it is stored at the end.
pub proof fn lemma_well_indexed_push(entries: Map<Seq<char>, usize>, keys: Seq<TaskKey>, key: TaskKey)
    requires
        well_indexed(entries, keys),
        !entries.contains_key(key.ident()),
        keys.len() <= usize::MAX,
    ensures
        well_indexed(entries.insert(key.ident(), keys.len() as usize), keys.push(key)),
{
    let entries2 = entries.insert(key.ident(), keys.len() as usize);
    let keys2 = keys.push(key);
    assert forall|i: int| 0 <= i < keys2.len() implies entries2.contains_key(
        #[trigger] keys2[i].ident(),
    ) && entries2[keys2[i].ident()] == i by {
        if i < keys.len() {
            assert(keys2[i] == keys[i]);
            assert(entries.contains_key(keys[i].ident()));
        }
    }
    assert forall|s: Seq<char>| #[trigger] entries2.contains_key(s) implies entries2[s]
        < keys2.len() && keys2[entries2[s] as int].ident() == s by {
        if s != key.ident() {
            assert(entries.contains_key(s));
            assert(keys2[entries[s] as int] == keys[entries[s] as int]);
        }
    }
}

} // verus!
