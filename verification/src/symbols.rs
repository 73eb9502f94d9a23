//! Values that pass between stacks and a symbolizer.

use vstd::prelude::*;

use crate::tables::TripleMap;
use crate::text::views;

verus! {

/// How a recorded kernel image is shifted: a symbol and the address it was recorded at.
#[derive(Clone, Debug, Eq, Hash, PartialEq)]
pub struct KernelRelocation {
    pub reference_symbol: String,
    pub recorded_reference_address: u64,
}

/// The contents of a [`KernelRelocation`]: symbol and address.
pub open spec fn relocation_view(relocation: Option<KernelRelocation>) -> Option<(Seq<char>, u64)> {
    match relocation {
        Some(relocation) => Some(
            (relocation.reference_symbol@, relocation.recorded_reference_address),
        ),
        None => None,
    }
}

/// The functions at an address, innermost first, and whether the object's symbol table names
/// the address.
#[derive(Clone, Debug, Eq, PartialEq)]
pub struct ResolvedSymbolFrames {
    pub frames: Vec<String>,
    pub has_base_symbol: bool,
}

/// The contents of a [`ResolvedSymbolFrames`].
#[verifier::ext_equal]
pub struct SymbolFramesModel {
    pub frames: Seq<Seq<char>>,
    pub has_base_symbol: bool,
}

impl View for ResolvedSymbolFrames {
    type V = SymbolFramesModel;

    open spec fn view(&self) -> SymbolFramesModel {
        SymbolFramesModel { frames: views(self.frames@), has_base_symbol: self.has_base_symbol }
    }
}

/// What is known of addresses: by symbol source, address in it, and whether only the base symbol
/// was asked for.
pub type SymbolsModel = Map<(usize, u64, bool), SymbolFramesModel>;

/// The functions at addresses, with and without inlined ones.
#[derive(Debug)]
pub struct SymbolTable {
    ids: TripleMap,
    entries: Vec<ResolvedSymbolFrames>,
}

/// The number under which an address is kept.
pub open spec fn symbol_key(source: usize, address: u64, base: bool) -> (u64, u64, u64) {
    (source as u64, address, if base { 1 } else { 0 })
}

impl View for SymbolTable {
    type V = SymbolsModel;

    closed spec fn view(&self) -> SymbolsModel {
        Map::new(
            |key: (usize, u64, bool)| self.ids@.contains_key(symbol_key(key.0, key.1, key.2)),
            |key: (usize, u64, bool)|
                self.entries@[self.ids@[symbol_key(key.0, key.1, key.2)] as int]@,
        )
    }
}

/// The functions that were found at an address; none where nothing was found.
pub open spec fn symbol_frames(
    symbols: SymbolsModel,
    source: usize,
    address: u64,
    base: bool,
) -> Seq<Seq<char>> {
    if symbols.contains_key((source, address, base)) {
        symbols[(source, address, base)].frames
    } else {
        Seq::empty()
    }
}

/// The functions at an address that the object's symbol table names.
pub open spec fn named_frames(symbols: SymbolsModel, source: usize, address: u64) -> Option<
    Seq<Seq<char>>,
> {
    if symbols.contains_key((source, address, true)) && symbols[(
        source,
        address,
        true,
    )].has_base_symbol {
        Some(symbols[(source, address, true)].frames)
    } else {
        None
    }
}

impl SymbolTable {
    /// Whether every address stands for functions that are there.
    pub closed spec fn wf(&self) -> bool {
        &&& self.entries@.len() == self.entries.len()
        &&& forall|key: (u64, u64, u64)| #[trigger]
            self.ids@.contains_key(key) ==> self.ids@[key] < self.entries@.len()
    }

    /// A table that knows no addresses.
    #[must_use]
    pub fn new() -> (table: SymbolTable)
        ensures
            table.wf(),
            table@ == SymbolsModel::empty(),
    {
        let table = SymbolTable { ids: TripleMap::new(), entries: Vec::new() };
        assert(table@ =~= SymbolsModel::empty());
        table
    }

    /// Enters the functions at an address.
    pub fn insert(&mut self, source: usize, address: u64, base: bool, frames: ResolvedSymbolFrames)
        requires
            old(self).wf(),
        ensures
            final(self).wf(),
            final(self)@ == old(self)@.insert((source, address, base), frames@),
    {
        let ghost before = *self;
        let id: u64 = self.entries.len() as u64;
        self.entries.push(frames);
        let key = (source as u64, address, if base {
            1
        } else {
            0
        });
        self.ids.insert(key, id);
        let total: usize = self.entries.len();
        proof {
            assert forall|other: (u64, u64, u64)| #[trigger]
                self.ids@.contains_key(other) implies self.ids@[other] < self.entries@.len() by {
                if other != key {
                    assert(before.ids@.contains_key(other));
                }
            }
            assert forall|other: (usize, u64, bool)| other != (source, address, base) implies (
            #[trigger] self@.contains_key(other) <==> before@.contains_key(other)) && (
            before@.contains_key(other) ==> self@[other] == before@[other]) by {
                assert(symbol_key(other.0, other.1, other.2) != key);
                if before@.contains_key(other) {
                    assert(before.ids@.contains_key(symbol_key(other.0, other.1, other.2)));
                }
            }
            assert(self@ =~= before@.insert((source, address, base), frames@));
        }
    }

    /// The functions that were found at an address.
    #[must_use]
    pub fn get(&self, source: usize, address: u64, base: bool) -> (found: Option<
        &ResolvedSymbolFrames,
    >)
        requires
            self.wf(),
        ensures
            match found {
                Some(found) => self@.contains_key((source, address, base)) && self@[(
                    source,
                    address,
                    base,
                )] == found@,
                None => !self@.contains_key((source, address, base)),
            },
    {
        let key = (source as u64, address, if base {
            1
        } else {
            0
        });
        match self.ids.get(key) {
            Some(id) => {
                assert(self.ids@.contains_key(key));
                Some(&self.entries[id as usize])
            },
            None => None,
        }
    }
}

} // verus!
