//! The sources of a store, in an order and by their numbers.

use super::variant::DataSourceVariant;
use indexmap::IndexMap;
use vstd::prelude::*;

verus! {

/// Sources with their numbers.
pub type Entries = Seq<(u64, DataSourceVariant)>;

/// The entries that a map holds, in their order.
pub uninterp spec fn source_entries(m: IndexMap<u64, DataSourceVariant>) -> Entries;

/// The place of the first entry with a number, or the length where there is none.
pub open spec fn place_of(s: Entries, key: u64) -> int
    decreases s.len(),
{
    if s.len() == 0 || s[0].0 == key {
        0
    } else {
        1 + place_of(s.drop_first(), key)
    }
}

/// Whether there is an entry with a number.
pub open spec fn has_key(s: Entries, key: u64) -> bool {
    place_of(s, key) < s.len()
}

/// Entries with one more: in place of that with its number, or last.
pub open spec fn with_entry(s: Entries, key: u64, value: DataSourceVariant) -> Entries {
    if has_key(s, key) {
        s.update(place_of(s, key), (key, value))
    } else {
        s.push((key, value))
    }
}

/// Entries without that with a number; the others keep their order.
pub open spec fn without_key(s: Entries, key: u64) -> Entries {
    if has_key(s, key) {
        s.remove(place_of(s, key))
    } else {
        s
    }
}

/// Makes an empty map with `indexmap::IndexMap::new`.
#[verifier::external_body]
fn new_map() -> (r: IndexMap<u64, DataSourceVariant>)
    ensures
        source_entries(r) == Entries::empty(),
{
    IndexMap::new()
}

/// Counts the entries of a map with `indexmap::IndexMap::len`.
#[verifier::external_body]
fn map_len(m: &IndexMap<u64, DataSourceVariant>) -> (r: usize)
    ensures
        r == source_entries(*m).len(),
{
    m.len()
}

/// Puts an entry into a map with `indexmap::IndexMap::insert`: in place of the entry with
/// its key, or last.
#[verifier::external_body]
fn map_insert(m: &mut IndexMap<u64, DataSourceVariant>, key: u64, value: DataSourceVariant)
    ensures
        source_entries(*final(m)) == with_entry(source_entries(*old(m)), key, value),
{
    m.insert(key, value);
}

/// Finds the place of a key with `indexmap::IndexMap::get_index_of`.
#[verifier::external_body]
fn map_place(m: &IndexMap<u64, DataSourceVariant>, key: u64) -> (r: Option<usize>)
    ensures
        r is Some == has_key(source_entries(*m), key),
        r matches Some(i) ==> i == place_of(source_entries(*m), key),
{
    m.get_index_of(&key)
}

/// Looks the entry at a place up with `indexmap::IndexMap::get_index`.
#[verifier::external_body]
fn map_get(m: &IndexMap<u64, DataSourceVariant>, index: usize) -> (r: Option<&DataSourceVariant>)
    ensures
        r == if index < source_entries(*m).len() {
            Some(&source_entries(*m)[index as int].1)
        } else {
            None
        },
{
    m.get_index(index).map(|e| e.1)
}

/// Looks the entry at a place up with `indexmap::IndexMap::get_index_mut`, to change its
/// value.
#[verifier::external_body]
fn map_get_mut(m: &mut IndexMap<u64, DataSourceVariant>, index: usize) -> (r: &mut DataSourceVariant)
    requires
        index < source_entries(*old(m)).len(),
    ensures
        *r == source_entries(*old(m))[index as int].1,
        source_entries(*final(m)) == source_entries(*old(m)).update(
            index as int,
            (source_entries(*old(m))[index as int].0, *final(r)),
        ),
{
    m.get_index_mut(index).unwrap().1
}

/// Takes the entry with a key out of a map with `indexmap::IndexMap::shift_remove`; those
/// behind it move up by one place.
#[verifier::external_body]
fn map_remove(m: &mut IndexMap<u64, DataSourceVariant>, key: u64) -> (r: Option<DataSourceVariant>)
    ensures
        r == if has_key(source_entries(*old(m)), key) {
            Some(source_entries(*old(m))[place_of(source_entries(*old(m)), key)].1)
        } else {
            None
        },
        source_entries(*final(m)) == without_key(source_entries(*old(m)), key),
{
    m.shift_remove(&key)
}

/// The sources of a store. Each stands under its own number, and no number occurs twice.
pub struct SourceMap {
    map: IndexMap<u64, DataSourceVariant>,
}

/// Whether each source stands under its own number, and no number occurs twice.
pub open spec fn keys_match(s: Entries) -> bool {
    &&& forall|i: int| 0 <= i < s.len() ==> (#[trigger] s[i]).0 == s[i].1.id()
    &&& forall|i: int, j: int|
        0 <= i < j < s.len() ==> (#[trigger] s[i]).0 != (#[trigger] s[j]).0
}

/// Whether every source is well-formed.
pub open spec fn all_wf(s: Entries) -> bool {
    forall|i: int| 0 <= i < s.len() ==> (#[trigger] s[i]).1.wf()
}

/// The place of a number is that of an entry with it.
pub proof fn lemma_place(s: Entries, key: u64)
    ensures
        0 <= place_of(s, key) <= s.len(),
        has_key(s, key) ==> s[place_of(s, key)].0 == key,
        forall|i: int| 0 <= i < place_of(s, key) ==> (#[trigger] s[i]).0 != key,
        forall|i: int| 0 <= i < s.len() && (#[trigger] s[i]).0 == key ==> has_key(s, key),
    decreases s.len(),
{
    if s.len() > 0 && s[0].0 != key {
        let rest = s.drop_first();
        lemma_place(rest, key);
        assert forall|i: int| 0 <= i < place_of(s, key) implies (#[trigger] s[i]).0 != key by {
            if i > 0 {
                assert(s[i] == rest[i - 1]);
            }
        }
        assert forall|i: int| 0 <= i < s.len() && (#[trigger] s[i]).0 == key implies has_key(
            s,
            key,
        ) by {
            assert(s[i] == rest[i - 1]);
        }
    }
}

impl View for SourceMap {
    type V = Entries;

    closed spec fn view(&self) -> Entries {
        source_entries(self.map)
    }
}

impl SourceMap {
    pub fn new() -> (r: Self)
        ensures
            r@ == Entries::empty(),
    {
        SourceMap { map: new_map() }
    }

    pub fn len(&self) -> (r: usize)
        ensures
            r == self@.len(),
    {
        map_len(&self.map)
    }

    /// The source at a place.
    pub fn at(&self, index: usize) -> (r: &DataSourceVariant)
        requires
            index < self@.len(),
        ensures
            *r == self@[index as int].1,
    {
        map_get(&self.map, index).unwrap()
    }

    /// The source at a place, to be changed.
    pub fn at_mut(&mut self, index: usize) -> (r: &mut DataSourceVariant)
        requires
            index < old(self)@.len(),
        ensures
            *r == old(self)@[index as int].1,
            final(self)@ == old(self)@.update(
                index as int,
                (old(self)@[index as int].0, *final(r)),
            ),
    {
        map_get_mut(&mut self.map, index)
    }

    /// The place of the source with a number.
    pub fn place(&self, key: u64) -> (r: Option<usize>)
        ensures
            r is Some == has_key(self@, key),
            r matches Some(i) ==> i == place_of(self@, key) && i < self@.len() && self@[i as int].0
                == key,
    {
        proof {
            lemma_place(self@, key);
        }
        map_place(&self.map, key)
    }

    /// Adds a source, in place of one with its number.
    pub fn insert(&mut self, value: DataSourceVariant)
        requires
            keys_match(old(self)@),
        ensures
            final(self)@ == with_entry(old(self)@, value.id(), value),
            keys_match(final(self)@),
            all_wf(old(self)@) && value.wf() ==> all_wf(final(self)@),
    {
        let key: u64 = value.source_id();
        proof {
            lemma_place(self@, key);
        }
        map_insert(&mut self.map, key, value);
    }

    /// Takes the source with a number out.
    pub fn remove(&mut self, key: u64) -> (r: Option<DataSourceVariant>)
        requires
            keys_match(old(self)@),
        ensures
            r == if has_key(old(self)@, key) {
                Some(old(self)@[place_of(old(self)@, key)].1)
            } else {
                None
            },
            final(self)@ == without_key(old(self)@, key),
            keys_match(final(self)@),
            all_wf(old(self)@) ==> all_wf(final(self)@),
    {
        proof {
            lemma_place(self@, key);
        }
        map_remove(&mut self.map, key)
    }
}

/// A source that was added is found under its number, and the others stay where they were.
pub proof fn added_source_is_found(s: Entries, value: DataSourceVariant)
    requires
        keys_match(s),
    ensures
        has_key(with_entry(s, value.id(), value), value.id()),
        with_entry(s, value.id(), value)[place_of(
            with_entry(s, value.id(), value),
            value.id(),
        )].1 == value,
        forall|key: u64|
            key != value.id() && #[trigger] has_key(s, key) ==> has_key(
                with_entry(s, value.id(), value),
                key,
            ) && with_entry(s, value.id(), value)[place_of(
                with_entry(s, value.id(), value),
                key,
            )] == s[place_of(s, key)],
{
    let key = value.id();
    let t = with_entry(s, key, value);
    lemma_place(s, key);
    lemma_place(t, key);
    if has_key(s, key) {
        assert(t[place_of(s, key)].0 == key);
    } else {
        assert(t[s.len() as int].0 == key);
    }
    assert forall|other: u64| other != key && #[trigger] has_key(s, other) implies has_key(t, other)
        && t[place_of(t, other)] == s[place_of(s, other)] by {
        lemma_place(s, other);
        lemma_place(t, other);
        assert(t[place_of(s, other)] == s[place_of(s, other)]);
    }
}

/// A source that was taken out is no longer found, and the others still are, and no more.
pub proof fn removed_source_is_gone(s: Entries, key: u64)
    requires
        keys_match(s),
    ensures
        !has_key(without_key(s, key), key),
        forall|other: u64| #[trigger] has_key(without_key(s, key), other) ==> has_key(s, other),
        forall|other: u64|
            other != key && #[trigger] has_key(s, other) ==> has_key(without_key(s, key), other)
                && without_key(s, key)[place_of(without_key(s, key), other)] == s[place_of(
                s,
                other,
            )],
{
    let t = without_key(s, key);
    lemma_place(s, key);
    lemma_place(t, key);
    if has_key(s, key) {
        let p = place_of(s, key);
        if has_key(t, key) {
            let q = place_of(t, key);
            assert(t[q].0 == key);
            assert(t[q] == s[if q < p {
                q
            } else {
                q + 1
            }]);
        }
        assert forall|other: u64| other != key && #[trigger] has_key(s, other) implies has_key(
            t,
            other,
        ) && t[place_of(t, other)] == s[place_of(s, other)] by {
            lemma_place(s, other);
            lemma_place(t, other);
            let q = place_of(s, other);
            let at = if q < p {
                q
            } else {
                q - 1
            };
            assert(t[at] == s[q]);
            assert(t[at].0 == other);
            let found = place_of(t, other);
            assert(t[found].0 == other);
            assert(found == at);
        }
        assert forall|other: u64| #[trigger] has_key(t, other) implies has_key(s, other) by {
            lemma_place(t, other);
            lemma_place(s, other);
            let q = place_of(t, other);
            assert(t[q] == s[if q < p {
                q
            } else {
                q + 1
            }]);
        }
    } else {
        assert forall|other: u64| other != key && #[trigger] has_key(s, other) implies has_key(
            t,
            other,
        ) && t[place_of(t, other)] == s[place_of(s, other)] by {}
    }
}

} // verus!
