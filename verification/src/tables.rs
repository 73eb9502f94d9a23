//! Hash tables of the `hashbrown` crate, with the fast hasher of `rustc-hash`, seen as
//! mathematical maps and sets.
//!
//! The types hide their table from the verifier; what each operation does is stated over the
//! table's contents and is not proved here.

use vstd::prelude::*;

verus! {

// ---------------------------------------------------------------------------
// From integers to integers
// ---------------------------------------------------------------------------

/// A table from 64-bit keys to 64-bit values.
#[verifier::external_body]
#[derive(Debug, PartialEq, Eq)]
pub struct IdMap {
    map: hashbrown::HashMap<u64, u64, rustc_hash::FxBuildHasher>,
}

/// The entries of an [`IdMap`].
pub uninterp spec fn id_map_entries(map: IdMap) -> Map<u64, u64>;

impl View for IdMap {
    type V = Map<u64, u64>;

    open spec fn view(&self) -> Map<u64, u64> {
        id_map_entries(*self)
    }
}

impl IdMap {
    /// `hashbrown::HashMap::default`: a table without entries.
    #[verifier::external_body]
    pub(crate) fn new() -> (map: IdMap)
        ensures
            (id_map_entries(map) == Map::<u64, u64>::empty()),
    {
        IdMap { map: hashbrown::HashMap::default() }
    }

    /// `hashbrown::HashMap::get`: the value under a key, if the key has an entry.
    #[verifier::external_body]
    pub(crate) fn get(&self, key: u64) -> (value: Option<u64>)
        ensures
            value == if id_map_entries(*self).dom().contains(key) {
                Some(id_map_entries(*self)[key])
            } else {
                None
            },
    {
        self.map.get(&key).copied()
    }

    /// `hashbrown::HashMap::insert`: afterwards the key has the value; other entries stay.
    #[verifier::external_body]
    pub(crate) fn insert(&mut self, key: u64, value: u64)
        ensures
            id_map_entries(*final(self)) == id_map_entries(*old(self)).insert(key, value),
    {
        self.map.insert(key, value);
    }
}

// ---------------------------------------------------------------------------
// Sets of integers
// ---------------------------------------------------------------------------

/// A set of 32-bit numbers.
#[verifier::external_body]
#[derive(Debug, PartialEq, Eq)]
pub struct IdSet {
    set: hashbrown::HashSet<u32, rustc_hash::FxBuildHasher>,
}

/// The members of an [`IdSet`].
pub uninterp spec fn id_set_members(set: IdSet) -> Set<u32>;

impl View for IdSet {
    type V = Set<u32>;

    open spec fn view(&self) -> Set<u32> {
        id_set_members(*self)
    }
}

impl IdSet {
    /// `hashbrown::HashSet::default`: a set without members.
    #[verifier::external_body]
    pub(crate) fn new() -> (set: IdSet)
        ensures
            id_set_members(set) == Set::<u32>::empty(),
    {
        IdSet { set: hashbrown::HashSet::default() }
    }

    /// `hashbrown::HashSet::contains`: whether a number is a member.
    #[verifier::external_body]
    pub(crate) fn contains(&self, id: u32) -> (member: bool)
        ensures
            member == id_set_members(*self).contains(id),
    {
        self.set.contains(&id)
    }

    /// `hashbrown::HashSet::insert`: afterwards the number is a member; other members stay.
    #[verifier::external_body]
    pub(crate) fn insert(&mut self, id: u32)
        ensures
            id_set_members(*final(self)) == id_set_members(*old(self)).insert(id),
    {
        self.set.insert(id);
    }
}

// ---------------------------------------------------------------------------
// From texts to integers
// ---------------------------------------------------------------------------

/// A table from texts to 64-bit values.
#[verifier::external_body]
#[derive(Debug, PartialEq, Eq)]
pub struct NameMap {
    map: hashbrown::HashMap<String, u64, rustc_hash::FxBuildHasher>,
}

/// The entries of a [`NameMap`], each under its text.
pub uninterp spec fn name_map_entries(map: NameMap) -> Map<Seq<char>, u64>;

impl View for NameMap {
    type V = Map<Seq<char>, u64>;

    open spec fn view(&self) -> Map<Seq<char>, u64> {
        name_map_entries(*self)
    }
}

impl NameMap {
    /// `hashbrown::HashMap::default`: a table without entries.
    #[verifier::external_body]
    pub(crate) fn new() -> (map: NameMap)
        ensures
            (name_map_entries(map) == Map::<Seq<char>, u64>::empty()),
    {
        NameMap { map: hashbrown::HashMap::default() }
    }

    /// `hashbrown::HashMap::get`: the value under a text, if the text has an entry.
    #[verifier::external_body]
    pub(crate) fn get(&self, name: &str) -> (value: Option<u64>)
        ensures
            value == if name_map_entries(*self).dom().contains(name@) {
                Some(name_map_entries(*self)[name@])
            } else {
                None
            },
    {
        self.map.get(name).copied()
    }

    /// `hashbrown::HashMap::insert`: afterwards the text has the value; other entries stay.
    #[verifier::external_body]
    pub(crate) fn insert(&mut self, name: String, value: u64)
        ensures
            name_map_entries(*final(self)) == name_map_entries(*old(self)).insert(name@, value),
    {
        self.map.insert(name, value);
    }
}

// ---------------------------------------------------------------------------
// From triples of integers to integers
// ---------------------------------------------------------------------------

/// A table from triples of 64-bit numbers to 64-bit values.
#[verifier::external_body]
#[derive(Debug, PartialEq, Eq)]
pub struct TripleMap {
    map: hashbrown::HashMap<(u64, u64, u64), u64, rustc_hash::FxBuildHasher>,
}

/// The entries of a [`TripleMap`].
pub uninterp spec fn triple_map_entries(map: TripleMap) -> Map<(u64, u64, u64), u64>;

impl View for TripleMap {
    type V = Map<(u64, u64, u64), u64>;

    open spec fn view(&self) -> Map<(u64, u64, u64), u64> {
        triple_map_entries(*self)
    }
}

impl TripleMap {
    /// `hashbrown::HashMap::default`: a table without entries.
    #[verifier::external_body]
    pub(crate) fn new() -> (map: TripleMap)
        ensures
            (triple_map_entries(map) == Map::<(u64, u64, u64), u64>::empty()),
    {
        TripleMap { map: hashbrown::HashMap::default() }
    }

    /// `hashbrown::HashMap::get`: the value under a key, if the key has an entry.
    #[verifier::external_body]
    pub(crate) fn get(&self, key: (u64, u64, u64)) -> (value: Option<u64>)
        ensures
            value == if triple_map_entries(*self).dom().contains(key) {
                Some(triple_map_entries(*self)[key])
            } else {
                None
            },
    {
        self.map.get(&key).copied()
    }

    /// `hashbrown::HashMap::insert`: afterwards the key has the value; other entries stay.
    #[verifier::external_body]
    pub(crate) fn insert(&mut self, key: (u64, u64, u64), value: u64)
        ensures
            triple_map_entries(*final(self)) == triple_map_entries(*old(self)).insert(key, value),
    {
        self.map.insert(key, value);
    }

    /// `hashbrown::HashMap::iter`: every entry exactly once. The order of the walk is left open.
    #[verifier::external_body]
    pub(crate) fn entries(&self) -> (entries: Vec<((u64, u64, u64), u64)>)
        ensures
            forall|i: int, j: int| 0 <= i < j < entries@.len() ==> entries@[i].0 != entries@[j].0,
            forall|i: int|
                0 <= i < entries@.len() ==> triple_map_entries(*self).contains_pair(
                    (#[trigger] entries@[i]).0,
                    entries@[i].1,
                ),
            forall|key: (u64, u64, u64)| #[trigger]
                triple_map_entries(*self).dom().contains(key) ==> exists|i: int|
                    0 <= i < entries@.len() && (#[trigger] entries@[i]).0 == key,
    {
        self.map.iter().map(|(key, value)| (*key, *value)).collect()
    }
}

// ---------------------------------------------------------------------------
// From symbol sources to integers
// ---------------------------------------------------------------------------

/// What tells one symbol source from another: path, build id, device and inode numbers, and the
/// kernel's reference symbol with its recorded address.
pub type SourceKey = (
    String,
    Option<Vec<u8>>,
    Option<(u32, u32, u64, u64)>,
    Option<(String, u64)>,
);

/// The contents of a [`SourceKey`].
pub type SourceKeyModel = (
    Seq<char>,
    Option<Seq<u8>>,
    Option<(u32, u32, u64, u64)>,
    Option<(Seq<char>, u64)>,
);

/// The contents of a key, part by part.
pub open spec fn source_key_model(key: SourceKey) -> SourceKeyModel {
    (
        key.0@,
        match key.1 {
            Some(build_id) => Some(build_id@),
            None => None,
        },
        key.2,
        match key.3 {
            Some((symbol, address)) => Some((symbol@, address)),
            None => None,
        },
    )
}

/// A table from symbol sources to 64-bit values.
#[verifier::external_body]
#[derive(Debug, PartialEq, Eq)]
pub struct SourceMap {
    map: hashbrown::HashMap<SourceKey, u64, rustc_hash::FxBuildHasher>,
}

/// The entries of a [`SourceMap`], each under the contents of its key.
pub uninterp spec fn source_map_entries(map: SourceMap) -> Map<SourceKeyModel, u64>;

impl View for SourceMap {
    type V = Map<SourceKeyModel, u64>;

    open spec fn view(&self) -> Map<SourceKeyModel, u64> {
        source_map_entries(*self)
    }
}

impl SourceMap {
    /// `hashbrown::HashMap::default`: a table without entries.
    #[verifier::external_body]
    pub(crate) fn new() -> (map: SourceMap)
        ensures
            (source_map_entries(map) == Map::<SourceKeyModel, u64>::empty()),
    {
        SourceMap { map: hashbrown::HashMap::default() }
    }

    /// `hashbrown::HashMap::get`: the value under a key, if the key has an entry.
    #[verifier::external_body]
    pub(crate) fn get(&self, key: &SourceKey) -> (value: Option<u64>)
        ensures
            value == if source_map_entries(*self).dom().contains(source_key_model(*key)) {
                Some(source_map_entries(*self)[source_key_model(*key)])
            } else {
                None
            },
    {
        self.map.get(key).copied()
    }

    /// `hashbrown::HashMap::len`: the number of entries.
    #[verifier::external_body]
    pub(crate) fn len(&self) -> (count: usize)
        ensures
            count == source_map_entries(*self).dom().len(),
    {
        self.map.len()
    }

    /// `hashbrown::HashMap::insert`: afterwards the key has the value; other entries stay.
    #[verifier::external_body]
    pub(crate) fn insert(&mut self, key: SourceKey, value: u64)
        ensures
            source_map_entries(*final(self)) == source_map_entries(*old(self)).insert(
                source_key_model(key),
                value,
            ),
    {
        self.map.insert(key, value);
    }
}

// ---------------------------------------------------------------------------
// From texts to bytes
// ---------------------------------------------------------------------------

/// A table from texts to bytes.
#[derive(Debug)]
pub struct NamedBytes {
    ids: NameMap,
    values: Vec<Vec<u8>>,
}

impl View for NamedBytes {
    type V = Map<Seq<char>, Seq<u8>>;

    closed spec fn view(&self) -> Map<Seq<char>, Seq<u8>> {
        Map::new(
            |name: Seq<char>| self.ids@.contains_key(name),
            |name: Seq<char>| self.values@[self.ids@[name] as int]@,
        )
    }
}

impl NamedBytes {
    /// Whether every text stands for bytes that are there.
    pub closed spec fn wf(&self) -> bool {
        &&& self.values@.len() == self.values.len()
        &&& forall|name: Seq<char>| #[trigger]
            self.ids@.contains_key(name) ==> self.ids@[name] < self.values@.len()
    }

    /// A table without entries.
    #[must_use]
    pub fn new() -> (table: NamedBytes)
        ensures
            table.wf(),
            table@ == Map::<Seq<char>, Seq<u8>>::empty(),
    {
        let table = NamedBytes { ids: NameMap::new(), values: Vec::new() };
        assert(table@ =~= Map::empty());
        table
    }

    /// Enters bytes under a text, in place of what stood there.
    pub fn insert(&mut self, name: &str, bytes: Vec<u8>)
        requires
            old(self).wf(),
        ensures
            final(self).wf(),
            final(self)@ == old(self)@.insert(name@, bytes@),
    {
        let ghost before = *self;
        let id: u64 = self.values.len() as u64;
        self.values.push(bytes);
        self.ids.insert(name.to_string(), id);
        proof {
            assert forall|other: Seq<char>| #[trigger]
                self.ids@.contains_key(other) implies self.ids@[other] < self.values@.len() by {
                if other != name@ {
                    assert(before.ids@.contains_key(other));
                }
            }
            assert(self@ =~= before@.insert(name@, bytes@)) by {
                assert forall|other: Seq<char>| #[trigger] before@.contains_key(other) && other
                    != name@ implies self@[other] == before@[other] by {
                    assert(before.ids@.contains_key(other));
                }
            }
            let total: usize = self.values.len();
        }
    }

    /// The bytes under a text.
    #[must_use]
    pub fn get(&self, name: &str) -> (bytes: Option<&Vec<u8>>)
        requires
            self.wf(),
        ensures
            match bytes {
                Some(bytes) => self@.contains_key(name@) && self@[name@] == bytes@,
                None => !self@.contains_key(name@),
            },
    {
        match self.ids.get(name) {
            Some(id) => {
                assert(self.ids@.contains_key(name@));
                Some(&self.values[id as usize])
            },
            None => None,
        }
    }
}

} // verus!
