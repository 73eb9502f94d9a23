//! Memory mappings of processes: which file an address belongs to.

use vstd::prelude::*;
use vstd::slice::{slice_subrange, slice_to_vec};

use crate::perfdata::records::{
    Mmap2BuildIdModel, Mmap2BuildIdRecord, Mmap2Model, Mmap2Record, MmapModel, MmapRecord,
};
use crate::symbols::{relocation_view, KernelRelocation};
use crate::tables::{source_key_model, IdMap, IdSet, SourceKey, SourceKeyModel, SourceMap};
use crate::text::{
    beginning_is_being_in_front, begins_with, chars_of, is_free_of, starts_with, text_of,
};

verus! {

/// The bit of a mapping's protection that allows execution.
pub const PROT_EXEC: u32 = 4;

/// The process number of mappings that belong to every process.
pub const GLOBAL_PID: u32 = 0xffff_ffff;

#[derive(Clone, Copy, Debug, Eq, Hash, Ord, PartialEq, PartialOrd, Structural)]
pub struct FileIdentity {
    pub major: u32,
    pub minor: u32,
    pub inode: u64,
    pub inode_generation: u64,
}

/// Whether a file with an inode number is the recorded one.
#[must_use]
pub fn inode_matches_recorded_identity(inode: Option<u64>, identity: FileIdentity) -> (same: bool)
    ensures
        same == (inode == Some(identity.inode)),
{
    match inode {
        Some(inode) => inode == identity.inode,
        None => false,
    }
}

/// A mapped range and what it maps.
#[verifier::ext_equal]
pub struct MappingModel {
    pub pid: u32,
    pub start: u64,
    pub len: u64,
    pub pgoff: u64,
    pub path: Seq<char>,
    pub build_id: Option<Seq<u8>>,
    pub file_identity: Option<FileIdentity>,
    pub prot: Option<u32>,
}

impl MappingModel {
    /// The address behind the range, at most the largest one.
    pub open spec fn end(self) -> u64 {
        if self.start + self.len > u64::MAX {
            u64::MAX
        } else {
            (self.start + self.len) as u64
        }
    }

    /// Whether two ranges have an address in common, or one lies strictly inside the other.
    pub open spec fn overlaps(self, other: MappingModel) -> bool {
        self.start < other.end() && other.start < self.end()
    }

    /// Whether an address of a process lies in the range.
    pub open spec fn holds(self, pid: u32, ip: u64) -> bool {
        self.pid == pid && self.start <= ip < self.end()
    }

    /// Whether the range belongs to the kernel's symbols.
    pub open spec fn is_kernel_symbol_mapping(self) -> bool {
        self.pid == GLOBAL_PID && begins_with(self.path, "["@)
    }

    /// Where an address of the range lies in the mapped file. Addresses of kernel symbols stay
    /// what they are; the sum wraps around the address space.
    pub open spec fn relative_address(self, ip: u64) -> u64 {
        if self.is_kernel_symbol_mapping() {
            ip
        } else {
            let address = ip - self.start + self.pgoff;
            if address > u64::MAX {
                (address - 0x1_0000_0000_0000_0000) as u64
            } else {
                address as u64
            }
        }
    }

    /// The reference symbol that follows `[kernel.kallsyms]` in the path.
    pub open spec fn kernel_relocation(self) -> Option<(Seq<char>, u64)> {
        let prefix = "[kernel.kallsyms]"@;
        if begins_with(self.path, prefix) && self.path.len() > prefix.len() {
            Some((self.path.subrange(prefix.len() as int, self.path.len() as int), self.pgoff))
        } else {
            None
        }
    }

    /// Whether the range maps a file of a process.
    pub open spec fn is_user_file_mapping(self) -> bool {
        !begins_with(self.path, "["@) && self.pid != GLOBAL_PID
    }

    /// Whether the range is known not to hold code.
    pub open spec fn is_known_non_executable(self) -> bool {
        ||| self.prot matches Some(prot) && prot & PROT_EXEC == 0
        ||| is_perf_data(self.path)
    }

    /// What tells the source of the range's symbols from another source.
    pub open spec fn source_key(self) -> SourceKeyModel {
        (
            if self.is_kernel_symbol_mapping() && begins_with(self.path, "[kernel"@) {
                "[kernel.kallsyms]"@
            } else {
                self.path
            },
            self.build_id,
            match self.file_identity {
                Some(identity) => Some(
                    (identity.major, identity.minor, identity.inode, identity.inode_generation),
                ),
                None => None,
            },
            self.kernel_relocation(),
        )
    }
}

/// Where the last component of a path begins.
pub open spec fn file_name_start(path: Seq<char>, upto: int) -> int
    decreases upto,
{
    if upto <= 0 {
        0
    } else if path[upto - 1] == '/' {
        upto
    } else {
        file_name_start(path, upto - 1)
    }
}

/// The last component of a path: what follows its last separator.
pub open spec fn file_name(path: Seq<char>) -> Seq<char> {
    path.subrange(file_name_start(path, path.len() as int), path.len() as int)
}

/// Whether a path's last component is that of a recording.
pub open spec fn is_perf_data(path: Seq<char>) -> bool {
    let name = file_name(path);
    name == "perf.data"@ || begins_with(name, "perf.data."@)
}

/// Finds where the last component of a path begins.
pub fn find_file_name(path: &[char]) -> (start: usize)
    ensures
        start == file_name_start(path@, path@.len() as int),
        start <= path.len(),
{
    let mut at: usize = path.len();
    while at > 0
        invariant
            at <= path.len(),
            file_name_start(path@, path@.len() as int) == file_name_start(path@, at as int),
        decreases at,
    {
        if path[at - 1] == '/' {
            return at;
        }
        at -= 1;
    }
    0
}

/// Tells whether a path is that of a recording.
pub fn is_perf_data_path(path: &str) -> (found: bool)
    ensures
        found == is_perf_data(path@),
{
    let chars = chars_of(path);
    let start: usize = find_file_name(chars.as_slice());
    let name = slice_subrange(chars.as_slice(), start, chars.len());
    let wanted = chars_of("perf.data");
    let whole = name.len() == wanted.len() && starts_with(name, "perf.data");
    proof {
        if name@.len() == wanted@.len() {
            assert(name@.subrange(0, name@.len() as int) =~= name@);
        }
    }
    whole || starts_with(name, "perf.data.")
}

#[derive(Debug)]
struct Mapping {
    pid: u32,
    start: u64,
    len: u64,
    pgoff: u64,
    symbol_source_id: usize,
    path: String,
    build_id: Option<Vec<u8>>,
    file_identity: Option<FileIdentity>,
    prot: Option<u32>,
}

/// The bytes of an optional build id.
pub open spec fn build_id_view(build_id: Option<Vec<u8>>) -> Option<Seq<u8>> {
    match build_id {
        Some(build_id) => Some(build_id@),
        None => None,
    }
}

impl View for Mapping {
    type V = MappingModel;

    closed spec fn view(&self) -> MappingModel {
        MappingModel {
            pid: self.pid,
            start: self.start,
            len: self.len,
            pgoff: self.pgoff,
            path: self.path@,
            build_id: build_id_view(self.build_id),
            file_identity: self.file_identity,
            prot: self.prot,
        }
    }
}

fn copy_build_id(build_id: &Option<Vec<u8>>) -> (copy: Option<Vec<u8>>)
    ensures
        build_id_view(copy) == build_id_view(*build_id),
{
    match build_id {
        Some(build_id) => Some(slice_to_vec(build_id.as_slice())),
        None => None,
    }
}

impl Mapping {
    fn duplicate(&self) -> (copy: Mapping)
        ensures
            copy@ == self@,
    {
        let copy = Mapping {
            pid: self.pid,
            start: self.start,
            len: self.len,
            pgoff: self.pgoff,
            symbol_source_id: self.symbol_source_id,
            path: self.path.clone(),
            build_id: copy_build_id(&self.build_id),
            file_identity: self.file_identity,
            prot: self.prot,
        };
        assert(copy@ =~= self@);
        copy
    }

    fn end(&self) -> (end: u64)
        ensures
            end == self@.end(),
    {
        self.start.saturating_add(self.len)
    }

    fn overlaps(&self, other: &Self) -> (found: bool)
        ensures
            found == self@.overlaps(other@),
    {
        self.start < other.end() && other.start < self.end()
    }

    fn path_starts_with(&self, prefix: &str) -> (found: bool)
        ensures
            found == begins_with(self@.path, prefix@),
    {
        starts_with(chars_of(self.path.as_str()).as_slice(), prefix)
    }

    fn is_kernel_symbol_mapping(&self) -> (found: bool)
        ensures
            found == self@.is_kernel_symbol_mapping(),
    {
        self.pid == GLOBAL_PID && self.path_starts_with("[")
    }

    fn relative_address(&self, ip: u64) -> (address: u64)
        requires
            self.start <= ip,
        ensures
            address == self@.relative_address(ip),
    {
        if self.is_kernel_symbol_mapping() {
            ip
        } else {
            (ip - self.start).wrapping_add(self.pgoff)
        }
    }

    fn kernel_relocation(&self) -> (relocation: Option<KernelRelocation>)
        ensures
            relocation_view(relocation) == self@.kernel_relocation(),
    {
        let prefix = chars_of("[kernel.kallsyms]");
        let path = chars_of(self.path.as_str());
        if starts_with(path.as_slice(), "[kernel.kallsyms]") && path.len() > prefix.len() {
            let symbol = text_of(slice_subrange(path.as_slice(), prefix.len(), path.len()));
            Some(
                KernelRelocation {
                    reference_symbol: symbol,
                    recorded_reference_address: self.pgoff,
                },
            )
        } else {
            None
        }
    }

    fn is_user_file_mapping(&self) -> (found: bool)
        ensures
            found == self@.is_user_file_mapping(),
    {
        !self.path_starts_with("[") && self.pid != GLOBAL_PID
    }

    fn is_known_non_executable(&self) -> (known: bool)
        ensures
            known == self@.is_known_non_executable(),
    {
        let protected = match self.prot {
            Some(prot) => prot & PROT_EXEC == 0,
            None => false,
        };
        protected || is_perf_data_path(self.path.as_str())
    }

    fn symbol_source_key(&self) -> (key: SourceKey)
        ensures
            source_key_model(key) == self@.source_key(),
    {
        let path = if self.is_kernel_symbol_mapping() && self.path_starts_with("[kernel") {
            "[kernel.kallsyms]".to_string()
        } else {
            self.path.clone()
        };
        let identity = match self.file_identity {
            Some(identity) => Some(
                (identity.major, identity.minor, identity.inode, identity.inode_generation),
            ),
            None => None,
        };
        let relocation = match self.kernel_relocation() {
            Some(relocation) => Some(
                (relocation.reference_symbol, relocation.recorded_reference_address),
            ),
            None => None,
        };
        (path, copy_build_id(&self.build_id), identity, relocation)
    }
}

/// One mapping of a process in the order of starts: the largest end up to here lets a search
/// stop early.
#[derive(Clone, Copy, Debug, Eq, PartialEq, Structural)]
pub struct IndexedMapping {
    pub start: u64,
    pub max_end: u64,
    pub index: usize,
}

/// The largest end among the first `count` entries' mappings.
pub open spec fn largest_end(
    entries: Seq<IndexedMapping>,
    mappings: Seq<MappingModel>,
    count: int,
) -> int
    decreases count,
{
    if count <= 0 {
        0
    } else {
        let end = mappings[entries[count - 1].index as int].end() as int;
        let before = largest_end(entries, mappings, count - 1);
        if end > before {
            end
        } else {
            before
        }
    }
}

/// Whether entries index exactly the mappings of a process below `count`, by their starts.
pub open spec fn indexes(
    entries: Seq<IndexedMapping>,
    mappings: Seq<MappingModel>,
    pid: u32,
    count: int,
) -> bool {
    &&& forall|i: int|
        0 <= i < entries.len() ==> (#[trigger] entries[i]).index < count
            && mappings[entries[i].index as int].pid == pid && entries[i].start
            == mappings[entries[i].index as int].start && entries[i].max_end == largest_end(
            entries,
            mappings,
            i + 1,
        )
    &&& forall|i: int, j: int|
        #![trigger entries[i], entries[j]]
        0 <= i < j < entries.len() ==> entries[i].start <= entries[j].start
    &&& forall|m: int|
        0 <= m < count && (#[trigger] mappings[m]).pid == pid ==> exists|i: int|
            0 <= i < entries.len() && (#[trigger] entries[i]).index == m
}

/// Only the indices of entries matter for the largest end.
proof fn largest_end_by_index(
    left: Seq<IndexedMapping>,
    right: Seq<IndexedMapping>,
    mappings: Seq<MappingModel>,
    count: int,
)
    requires
        count <= left.len(),
        count <= right.len(),
        forall|i: int| 0 <= i < count ==> (#[trigger] left[i]).index == (#[trigger] right[i]).index,
    ensures
        largest_end(left, mappings, count) == largest_end(right, mappings, count),
    decreases count,
{
    if count > 0 {
        assert(left[count - 1].index == right[count - 1].index);
        largest_end_by_index(left, right, mappings, count - 1);
    }
}

/// Every end among the first entries is at most the largest one.
proof fn largest_end_bounds(
    entries: Seq<IndexedMapping>,
    mappings: Seq<MappingModel>,
    count: int,
    i: int,
)
    requires
        0 <= i < count <= entries.len(),
    ensures
        mappings[entries[i].index as int].end() <= largest_end(entries, mappings, count),
    decreases count,
{
    if i < count - 1 {
        largest_end_bounds(entries, mappings, count - 1, i);
    }
}

proof fn largest_end_in_range(
    entries: Seq<IndexedMapping>,
    mappings: Seq<MappingModel>,
    count: int,
)
    ensures
        0 <= largest_end(entries, mappings, count) <= u64::MAX,
    decreases count,
{
    if count > 0 {
        largest_end_in_range(entries, mappings, count - 1);
    }
}

/// The models of mappings.
spec fn models(mappings: Seq<Mapping>) -> Seq<MappingModel> {
    Seq::new(mappings.len(), |i: int| mappings[i]@)
}

/// The number of entries that start no later than an address.
fn entries_up_to(entries: &Vec<IndexedMapping>, ip: u64) -> (count: usize)
    requires
        forall|i: int, j: int|
            #![trigger entries@[i], entries@[j]]
            0 <= i < j < entries@.len() ==> entries@[i].start <= entries@[j].start,
    ensures
        count <= entries@.len(),
        forall|i: int| 0 <= i < count ==> (#[trigger] entries@[i]).start <= ip,
        forall|i: int| count <= i < entries@.len() ==> (#[trigger] entries@[i]).start > ip,
{
    let mut low: usize = 0;
    let mut high: usize = entries.len();
    while low < high
        invariant
            low <= high <= entries@.len(),
            forall|i: int, j: int|
                #![trigger entries@[i], entries@[j]]
                0 <= i < j < entries@.len() ==> entries@[i].start <= entries@[j].start,
            forall|i: int| 0 <= i < low ==> (#[trigger] entries@[i]).start <= ip,
            forall|i: int| high <= i < entries@.len() ==> (#[trigger] entries@[i]).start > ip,
        decreases high - low,
    {
        let middle: usize = low + (high - low) / 2;
        if entries[middle].start <= ip {
            low = middle + 1;
        } else {
            high = middle;
        }
    }
    low
}

/// Adds the mapping at `index` to the entries of its process.
#[verifier::spinoff_prover]
#[verifier::rlimit(60)]
fn insert_entry(entries: &mut Vec<IndexedMapping>, mappings: &Vec<Mapping>, index: usize)
    requires
        index < mappings@.len(),
        indexes(old(entries)@, models(mappings@), mappings@[index as int].pid, index as int),
    ensures
        indexes(final(entries)@, models(mappings@), mappings@[index as int].pid, index + 1),
{
    let start: u64 = mappings[index].start;
    let ghost all = models(mappings@);
    let ghost pid = mappings@[index as int].pid;
    let ghost before = entries@;
    let position: usize = entries_up_to(entries, start);
    entries.insert(position, IndexedMapping { start, max_end: 0, index });
    let ghost inserted = entries@;
    assert(inserted == before.insert(position as int, IndexedMapping { start, max_end: 0, index }));
    proof {
        assert forall|i: int| 0 <= i < position implies inserted[i] == before[i] by {
        }
        assert forall|i: int| 0 <= i < position implies (#[trigger] inserted[i]).max_end
            == largest_end(inserted, all, i + 1) by {
            assert(before[i].max_end == largest_end(before, all, i + 1));
            largest_end_by_index(before, inserted, all, i + 1);
        }
    }
    let mut at: usize = position;
    while at < entries.len()
        invariant
            position <= at <= entries@.len(),
            entries@.len() == inserted.len(),
            all == models(mappings@),
            forall|i: int|
                0 <= i < entries@.len() ==> (#[trigger] entries@[i]).index == inserted[i].index
                    && entries@[i].start == inserted[i].start,
            forall|i: int|
                0 <= i < inserted.len() ==> (#[trigger] inserted[i]).index < mappings@.len(),
            forall|i: int|
                0 <= i < at ==> (#[trigger] entries@[i]).max_end == largest_end(
                    entries@,
                    all,
                    i + 1,
                ),
        decreases entries@.len() - at,
    {
        let ghost now = entries@;
        let entry = entries[at];
        assert(inserted[at as int].index == entry.index);
        let end: u64 = mappings[entry.index].end();
        let max_end: u64 = if at == 0 {
            end
        } else {
            let earlier: u64 = entries[at - 1].max_end;
            if earlier > end {
                earlier
            } else {
                end
            }
        };
        entries[at] = IndexedMapping { start: entry.start, max_end, index: entry.index };
        proof {
            assert(all[entry.index as int] == mappings@[entry.index as int]@);
            assert forall|i: int| 0 <= i <= at implies (#[trigger] entries@[i]).max_end
                == largest_end(entries@, all, i + 1) by {
                largest_end_by_index(now, entries@, all, i + 1);
                if i == at && at > 0 {
                    assert(now[at - 1].max_end == largest_end(now, all, at as int));
                }
                if at == 0 {
                    largest_end_in_range(now, all, 0);
                    assert(largest_end(now, all, 0) == 0);
                }
            }
        }
        at += 1;
    }
    proof {
        let now = entries@;
        assert forall|i: int| 0 <= i < now.len() implies (#[trigger] now[i]).index < index + 1
            && all[now[i].index as int].pid == pid && now[i].start
            == all[now[i].index as int].start by {
            assert(now[i].index == inserted[i].index && now[i].start == inserted[i].start);
            if i < position {
                assert(inserted[i] == before[i]);
            } else if i > position {
                assert(inserted[i] == before[i - 1]);
            }
        }
        assert forall|i: int, j: int|
            #![trigger now[i], now[j]]
            0 <= i < j < now.len() implies now[i].start <= now[j].start by {
            assert(now[i].start == inserted[i].start && now[j].start == inserted[j].start);
            if i < position {
                assert(inserted[i] == before[i]);
            } else if i > position {
                assert(inserted[i] == before[i - 1]);
            }
            if j < position {
                assert(inserted[j] == before[j]);
            } else if j > position {
                assert(inserted[j] == before[j - 1]);
            }
        }
        assert forall|m: int| 0 <= m < index + 1 && (#[trigger] all[m]).pid == pid implies exists|
            i: int,
        | 0 <= i < now.len() && (#[trigger] now[i]).index == m by {
            if m == index {
                assert(now[position as int].index == inserted[position as int].index);
            } else {
                let i = choose|i: int| 0 <= i < before.len() && (#[trigger] before[i]).index == m;
                if i < position {
                    assert(inserted[i] == before[i]);
                    assert(now[i].index == m);
                } else {
                    assert(inserted[i + 1] == before[i]);
                    assert(now[i + 1].index == m);
                }
            }
        }
    }
}

/// The last of the first `count` mappings that holds an address of a process.
pub open spec fn latest_below(
    mappings: Seq<MappingModel>,
    count: int,
    pid: u32,
    ip: u64,
) -> Option<int>
    decreases count,
{
    if count <= 0 {
        None
    } else if mappings[count - 1].holds(pid, ip) {
        Some(count - 1)
    } else {
        latest_below(mappings, count - 1, pid, ip)
    }
}

/// The last mapping that holds an address of a process.
pub open spec fn latest(mappings: Seq<MappingModel>, pid: u32, ip: u64) -> Option<int> {
    latest_below(mappings, mappings.len() as int, pid, ip)
}

/// What makes a mapping the last one that holds an address.
proof fn latest_below_is(
    mappings: Seq<MappingModel>,
    count: int,
    pid: u32,
    ip: u64,
    found: Option<int>,
)
    requires
        0 <= count <= mappings.len(),
        match found {
            Some(at) => 0 <= at < count && mappings[at].holds(pid, ip) && forall|m: int|
                at < m < count ==> !(#[trigger] mappings[m]).holds(pid, ip),
            None => forall|m: int| 0 <= m < count ==> !(#[trigger] mappings[m]).holds(pid, ip),
        },
    ensures
        latest_below(mappings, count, pid, ip) == found,
    decreases count,
{
    if count > 0 && !mappings[count - 1].holds(pid, ip) {
        latest_below_is(mappings, count - 1, pid, ip, found);
    }
}

/// What the last mapping that holds an address is.
proof fn latest_below_holds(mappings: Seq<MappingModel>, count: int, pid: u32, ip: u64)
    requires
        0 <= count <= mappings.len(),
    ensures
        match latest_below(mappings, count, pid, ip) {
            Some(at) => 0 <= at < count && mappings[at].holds(pid, ip) && forall|m: int|
                at < m < count ==> !(#[trigger] mappings[m]).holds(pid, ip),
            None => forall|m: int| 0 <= m < count ==> !(#[trigger] mappings[m]).holds(pid, ip),
        },
    decreases count,
{
    if count > 0 && !mappings[count - 1].holds(pid, ip) {
        latest_below_holds(mappings, count - 1, pid, ip);
    }
}

/// The mapping that an address of a process belongs to: the last one of the process that holds
/// it, or the last one of every process, whichever starts later.
pub open spec fn resolved(mappings: Seq<MappingModel>, pid: u32, ip: u64) -> Option<int> {
    let own = latest(mappings, pid, ip);
    let global = latest(mappings, GLOBAL_PID, ip);
    match (own, global) {
        (Some(own), Some(global)) => if mappings[own].start >= mappings[global].start {
            Some(own)
        } else {
            Some(global)
        },
        (Some(own), None) => Some(own),
        (None, global) => global,
    }
}

/// Finds the last mapping of an index that holds an address.
fn search_entries(
    entries: &Vec<IndexedMapping>,
    mappings: &Vec<Mapping>,
    pid: u32,
    ip: u64,
) -> (found: Option<usize>)
    requires
        indexes(entries@, models(mappings@), pid, mappings@.len() as int),
    ensures
        match found {
            Some(found) => latest(models(mappings@), pid, ip) == Some(found as int),
            None => latest(models(mappings@), pid, ip) is None,
        },
        found matches Some(index) ==> index < mappings@.len(),
{
    let ghost all = models(mappings@);
    let upper: usize = entries_up_to(entries, ip);
    let mut at: usize = upper;
    let mut best: Option<usize> = None;
    let mut done = false;
    while at > 0 && !done
        invariant
            at <= upper <= entries@.len(),
            all == models(mappings@),
            indexes(entries@, all, pid, mappings@.len() as int),
            forall|i: int| 0 <= i < upper ==> (#[trigger] entries@[i]).start <= ip,
            done ==> forall|i: int|
                0 <= i < at ==> all[(#[trigger] entries@[i]).index as int].end() <= ip,
            forall|i: int|
                at <= i < upper && ip < all[(#[trigger] entries@[i]).index as int].end() ==> (
                best matches Some(b) && entries@[i].index <= b),
            best matches Some(b) ==> b < all.len() && all[b as int].holds(pid, ip),
        decreases at, if done {
            0int
        } else {
            1int
        },
    {
        let entry = entries[at - 1];
        assert(entry == entries@[at - 1] && entry.index < mappings@.len());
        if entry.max_end <= ip {
            proof {
                assert forall|i: int| 0 <= i < at implies all[(#[trigger] entries@[i]).index as int].end()
                    <= ip by {
                    largest_end_bounds(entries@, all, at as int, i);
                }
            }
            done = true;
        } else {
            if ip < mappings[entry.index].end() {
                best = match best {
                    Some(b) if b > entry.index => Some(b),
                    _ => Some(entry.index),
                };
            }
            at -= 1;
        }
    }
    proof {
        assert forall|m: int|
            0 <= m < all.len() && (#[trigger] all[m]).holds(pid, ip) implies best matches Some(b)
            && m <= b by {
            let i = choose|i: int| 0 <= i < entries@.len() && (#[trigger] entries@[i]).index == m;
            assert(entries@[i].start == all[m].start);
        }
        latest_below_is(
            all,
            all.len() as int,
            pid,
            ip,
            match best {
                Some(b) => Some(b as int),
                None => None,
            },
        );
    }
    best
}

// ---------------------------------------------------------------------------
// The table
// ---------------------------------------------------------------------------

/// What is left of a mapping in front of a new one.
pub open spec fn part_before(old_mapping: MappingModel, new_mapping: MappingModel) -> Seq<
    MappingModel,
> {
    if old_mapping.start < new_mapping.start {
        seq![
            MappingModel { len: (new_mapping.start - old_mapping.start) as u64, ..old_mapping },
        ]
    } else {
        Seq::empty()
    }
}

/// What is left of a mapping behind a new one. Its place in the file moves with its start, up to
/// the largest offset there is.
pub open spec fn part_after(old_mapping: MappingModel, new_mapping: MappingModel) -> Seq<
    MappingModel,
> {
    if old_mapping.end() > new_mapping.end() {
        let moved = old_mapping.pgoff + (new_mapping.end() - old_mapping.start);
        seq![
            MappingModel {
                start: new_mapping.end(),
                pgoff: if moved > u64::MAX {
                    u64::MAX
                } else {
                    moved as u64
                },
                len: (old_mapping.end() - new_mapping.end()) as u64,
                ..old_mapping
            },
        ]
    } else {
        Seq::empty()
    }
}

/// Whether a new mapping takes room from a mapping.
pub open spec fn displaced(old_mapping: MappingModel, new_mapping: MappingModel) -> bool {
    old_mapping.pid == new_mapping.pid && old_mapping.overlaps(new_mapping)
}

/// The first `count` mappings without those that a new one displaces.
pub open spec fn kept(mappings: Seq<MappingModel>, new_mapping: MappingModel, count: int) -> Seq<
    MappingModel,
>
    decreases count,
{
    if count <= 0 {
        Seq::empty()
    } else if displaced(mappings[count - 1], new_mapping) {
        kept(mappings, new_mapping, count - 1)
    } else {
        kept(mappings, new_mapping, count - 1).push(mappings[count - 1])
    }
}

/// What is left of the displaced ones among the first `count` mappings.
pub open spec fn remnants(
    mappings: Seq<MappingModel>,
    new_mapping: MappingModel,
    count: int,
) -> Seq<MappingModel>
    decreases count,
{
    if count <= 0 {
        Seq::empty()
    } else if displaced(mappings[count - 1], new_mapping) {
        remnants(mappings, new_mapping, count - 1) + part_before(mappings[count - 1], new_mapping)
            + part_after(mappings[count - 1], new_mapping)
    } else {
        remnants(mappings, new_mapping, count - 1)
    }
}

/// The mappings after a new one has taken its room.
pub open spec fn with_mapping(
    mappings: Seq<MappingModel>,
    new_mapping: MappingModel,
) -> Seq<MappingModel> {
    let count = mappings.len() as int;
    (kept(mappings, new_mapping, count) + remnants(mappings, new_mapping, count)).push(new_mapping)
}

/// The ids of symbol sources after one more source was seen: a new source gets the next number.
pub open spec fn with_source(ids: Map<SourceKeyModel, u64>, key: SourceKeyModel) -> Map<
    SourceKeyModel,
    u64,
> {
    if ids.dom().contains(key) {
        ids
    } else {
        ids.insert(key, ids.dom().len() as u64)
    }
}

/// The ids of symbol sources after the sources of some mappings were seen.
pub open spec fn with_sources(
    ids: Map<SourceKeyModel, u64>,
    mappings: Seq<MappingModel>,
) -> Map<SourceKeyModel, u64>
    decreases mappings.len(),
{
    if mappings.len() == 0 {
        ids
    } else {
        with_source(with_sources(ids, mappings.drop_last()), mappings.last().source_key())
    }
}

/// Whether mappings of one process never overlap.
pub open spec fn ranges_apart(mappings: Seq<MappingModel>) -> bool {
    forall|i: int, j: int|
        #![trigger mappings[i], mappings[j]]
        0 <= i < j < mappings.len() && mappings[i].pid == mappings[j].pid
            ==> !mappings[i].overlaps(mappings[j])
}

#[derive(Debug)]
pub struct MmapTable {
    mappings: Vec<Mapping>,
    buckets: Vec<Vec<IndexedMapping>>,
    bucket_ids: IdMap,
    symbol_source_ids: SourceMap,
    pids_with_mappings: IdSet,
    executable_pids: IdSet,
    has_global_mappings: bool,
    has_global_executable_mappings: bool,
}

impl View for MmapTable {
    type V = Seq<MappingModel>;

    closed spec fn view(&self) -> Seq<MappingModel> {
        models(self.mappings@)
    }
}

/// Whether some of the first `count` mappings belongs to a process.
pub open spec fn some_of(mappings: Seq<MappingModel>, count: int, pid: u32) -> bool {
    exists|m: int| 0 <= m < count && (#[trigger] mappings[m]).pid == pid
}

/// Whether some of the first `count` mappings belongs to a process and may hold code.
pub open spec fn some_executable_of(mappings: Seq<MappingModel>, count: int, pid: u32) -> bool {
    exists|m: int|
        0 <= m < count && (#[trigger] mappings[m]).pid == pid
            && !mappings[m].is_known_non_executable()
}

impl MmapTable {
    /// The ids given to symbol sources.
    pub closed spec fn source_ids(&self) -> Map<SourceKeyModel, u64> {
        self.symbol_source_ids@
    }

    /// Whether the index covers exactly the first `count` mappings.
    spec fn indexed(&self, count: int) -> bool {
        &&& count <= self.mappings@.len()
        &&& self.buckets@.len() == self.buckets.len()
        &&& forall|pid: u32| #[trigger]
            self.bucket_ids@.dom().contains(pid as u64) ==> self.bucket_ids@[pid as u64]
                < self.buckets@.len() && indexes(
                self.buckets@[self.bucket_ids@[pid as u64] as int]@,
                self@,
                pid,
                count,
            )
        &&& forall|left: u32, right: u32|
            #![trigger self.bucket_ids@.dom().contains(left as u64), self.bucket_ids@.dom().contains(right as u64)]
            self.bucket_ids@.dom().contains(left as u64) && self.bucket_ids@.dom().contains(
                right as u64,
            ) && left != right ==> self.bucket_ids@[left as u64] != self.bucket_ids@[right as u64]
        &&& forall|m: int|
            0 <= m < count ==> self.bucket_ids@.dom().contains(
                (#[trigger] self.mappings@[m]).pid as u64,
            )
        &&& forall|pid: u32| #[trigger]
            self.pids_with_mappings@.contains(pid) <==> pid != GLOBAL_PID && some_of(
                self@,
                count,
                pid,
            )
        &&& forall|pid: u32| #[trigger]
            self.executable_pids@.contains(pid) <==> pid != GLOBAL_PID && some_executable_of(
                self@,
                count,
                pid,
            )
        &&& self.has_global_mappings == some_of(self@, count, GLOBAL_PID)
        &&& self.has_global_executable_mappings == some_executable_of(self@, count, GLOBAL_PID)
    }

    /// Whether every mapping carries its source's id, and ids number the sources seen.
    spec fn sources_numbered(&self) -> bool {
        &&& self.symbol_source_ids@.dom().finite()
        &&& forall|m: int|
            0 <= m < self.mappings@.len() ==> self.symbol_source_ids@.contains_pair(
                (#[trigger] self.mappings@[m])@.source_key(),
                self.mappings@[m].symbol_source_id as u64,
            )
        &&& forall|key: SourceKeyModel| #[trigger]
            self.symbol_source_ids@.dom().contains(key) ==> self.symbol_source_ids@[key]
                < self.symbol_source_ids@.dom().len()
        &&& forall|left: SourceKeyModel, right: SourceKeyModel|
            #![trigger self.symbol_source_ids@[left], self.symbol_source_ids@[right]]
            self.symbol_source_ids@.dom().contains(left) && self.symbol_source_ids@.dom().contains(
                right,
            ) && left != right ==> self.symbol_source_ids@[left] != self.symbol_source_ids@[right]
    }

    /// Mappings of one process never overlap, every mapping is found through the index of its
    /// process, and every mapping carries the number of its symbol source.
    pub closed spec fn wf(&self) -> bool {
        &&& ranges_apart(self@)
        &&& self.structured()
    }

    spec fn structured(&self) -> bool {
        &&& self.indexed(self.mappings@.len() as int)
        &&& self.sources_numbered()
    }

    /// An empty table.
    #[must_use]
    pub fn new() -> (table: MmapTable)
        ensures
            table.wf(),
            table@ == Seq::<MappingModel>::empty(),
            table.source_ids() == Map::<SourceKeyModel, u64>::empty(),
    {
        let table = MmapTable {
            mappings: Vec::new(),
            buckets: Vec::new(),
            bucket_ids: IdMap::new(),
            symbol_source_ids: SourceMap::new(),
            pids_with_mappings: IdSet::new(),
            executable_pids: IdSet::new(),
            has_global_mappings: false,
            has_global_executable_mappings: false,
        };
        assert(table@ =~= Seq::<MappingModel>::empty());
        table
    }

    /// Adds the first mapping that the index does not cover to the index.
    fn index_mapping(&mut self, index: usize)
        requires
            index < old(self).mappings@.len(),
            old(self).indexed(index as int),
        ensures
            final(self).indexed(index + 1),
            final(self).mappings == old(self).mappings,
            final(self).symbol_source_ids == old(self).symbol_source_ids,
    {
        let pid: u32 = self.mappings[index].pid;
        let may_execute = !self.mappings[index].is_known_non_executable();
        let ghost start = *self;
        let ghost all = self@;
        let bucket: usize = match self.bucket_ids.get(pid as u64) {
            Some(bucket) => {
                assert(self.bucket_ids@.dom().contains(pid as u64));
                bucket as usize
            },
            None => {
                let bucket: usize = self.buckets.len();
                self.buckets.push(Vec::new());
                self.bucket_ids.insert(pid as u64, bucket as u64);
                bucket
            },
        };
        let ghost ready = *self;
        proof {
            assert(ready.bucket_ids@.dom().contains(pid as u64));
            assert(ready.bucket_ids@[pid as u64] == bucket);
            assert(bucket < ready.buckets@.len());
            if !start.bucket_ids@.dom().contains(pid as u64) {
                assert forall|m: int| 0 <= m < index implies (#[trigger] all[m]).pid != pid by {
                    assert(start.bucket_ids@.dom().contains(start.mappings@[m].pid as u64));
                }
            }
            assert(indexes(ready.buckets@[bucket as int]@, all, pid, index as int));
        }
        insert_entry(&mut self.buckets[bucket], &self.mappings, index);
        if pid == GLOBAL_PID {
            self.has_global_mappings = true;
            self.has_global_executable_mappings = self.has_global_executable_mappings
                || may_execute;
        } else {
            self.pids_with_mappings.insert(pid);
            if may_execute {
                self.executable_pids.insert(pid);
            }
        }
        proof {
            assert(self@ == all);
            assert(all[index as int] == self.mappings@[index as int]@);
            assert forall|other: u32| #[trigger]
                self.bucket_ids@.dom().contains(other as u64) implies self.bucket_ids@[other as u64]
                < self.buckets@.len() && indexes(
                self.buckets@[self.bucket_ids@[other as u64] as int]@,
                self@,
                other,
                index + 1,
            ) by {
                if other != pid {
                    assert(start.bucket_ids@.dom().contains(other as u64));
                    assert(start.bucket_ids@[other as u64] != bucket);
                    let place = self.bucket_ids@[other as u64] as int;
                    assert(self.buckets@[place] == start.buckets@[place]);
                    let entries = start.buckets@[place]@;
                    assert(indexes(entries, all, other, index as int));
                    assert forall|m: int|
                        0 <= m < index + 1 && (#[trigger] all[m]).pid == other implies exists|i: int|
                        0 <= i < entries.len() && (#[trigger] entries[i]).index == m by {
                        assert(m < index);
                    }
                    assert(indexes(entries, all, other, index + 1));
                }
            }
            assert forall|other: u32| #[trigger] some_of(all, index + 1, other) <==> (some_of(
                all,
                index as int,
                other,
            ) || other == pid) by {
                if other == pid {
                    assert(all[index as int].pid == other);
                }
            }
            assert forall|other: u32| #[trigger] some_executable_of(all, index + 1, other) <==> (
            some_executable_of(all, index as int, other) || (other == pid && may_execute)) by {
                if other == pid && may_execute {
                    assert(all[index as int].pid == other);
                }
            }
            assert forall|other: u32| #[trigger] self.pids_with_mappings@.contains(other) <==> other
                != GLOBAL_PID && some_of(self@, index + 1, other) by {
                assert(start.pids_with_mappings@.contains(other) <==> other != GLOBAL_PID
                    && some_of(all, index as int, other));
                assert(some_of(all, index + 1, other) <==> (some_of(all, index as int, other)
                    || other == pid));
            }
            assert forall|other: u32| #[trigger] self.executable_pids@.contains(other) <==> other
                != GLOBAL_PID && some_executable_of(self@, index + 1, other) by {
                assert(start.executable_pids@.contains(other) <==> other != GLOBAL_PID
                    && some_executable_of(all, index as int, other));
                assert(some_executable_of(all, index + 1, other) <==> (some_executable_of(
                    all,
                    index as int,
                    other,
                ) || (other == pid && may_execute)));
            }
            assert forall|m: int| 0 <= m < index + 1 implies self.bucket_ids@.dom().contains(
                (#[trigger] self.mappings@[m]).pid as u64,
            ) by {
                if m < index {
                    assert(start.bucket_ids@.dom().contains(start.mappings@[m].pid as u64));
                }
            }
            assert forall|left: u32, right: u32|
                #![trigger self.bucket_ids@.dom().contains(left as u64), self.bucket_ids@.dom().contains(right as u64)]
                self.bucket_ids@.dom().contains(left as u64) && self.bucket_ids@.dom().contains(
                    right as u64,
                ) && left != right implies self.bucket_ids@[left as u64]
                != self.bucket_ids@[right as u64] by {
                if left != pid {
                    assert(start.bucket_ids@.dom().contains(left as u64));
                }
                if right != pid {
                    assert(start.bucket_ids@.dom().contains(right as u64));
                }
            }
        }
    }

    /// Builds the index anew.
    fn rebuild_pid_indexes(&mut self)
        ensures
            final(self).indexed(final(self).mappings@.len() as int),
            final(self).mappings == old(self).mappings,
            final(self).symbol_source_ids == old(self).symbol_source_ids,
    {
        self.buckets = Vec::new();
        self.bucket_ids = IdMap::new();
        self.pids_with_mappings = IdSet::new();
        self.executable_pids = IdSet::new();
        self.has_global_mappings = false;
        self.has_global_executable_mappings = false;
        let mut index: usize = 0;
        while index < self.mappings.len()
            invariant
                index <= self.mappings@.len(),
                self.indexed(index as int),
                self.mappings == old(self).mappings,
                self.symbol_source_ids == old(self).symbol_source_ids,
            decreases self.mappings@.len() - index,
        {
            self.index_mapping(index);
            index += 1;
        }
    }

    /// Gives a mapping the number of its symbol source.
    fn intern_symbol_source(&mut self, mapping: &Mapping) -> (id: usize)
        requires
            old(self).sources_numbered(),
        ensures
            final(self).sources_numbered(),
            final(self).mappings == old(self).mappings,
            final(self).buckets == old(self).buckets,
            final(self).bucket_ids == old(self).bucket_ids,
            final(self).pids_with_mappings == old(self).pids_with_mappings,
            final(self).executable_pids == old(self).executable_pids,
            final(self).has_global_mappings == old(self).has_global_mappings,
            final(self).has_global_executable_mappings == old(self).has_global_executable_mappings,
            final(self).symbol_source_ids@ == with_source(
                old(self).symbol_source_ids@,
                mapping@.source_key(),
            ),
            final(self).symbol_source_ids@.contains_pair(mapping@.source_key(), id as u64),
    {
        let key = mapping.symbol_source_key();
        let next_id: usize = self.symbol_source_ids.len();
        match self.symbol_source_ids.get(&key) {
            Some(id) => {
                assert(self.symbol_source_ids@.dom().contains(mapping@.source_key()));
                id as usize
            },
            None => {
                self.symbol_source_ids.insert(key, next_id as u64);
                next_id
            },
        }
    }
}

/// Whether a range lies inside another of the same process.
pub open spec fn within(inner: MappingModel, outer: MappingModel) -> bool {
    inner.pid == outer.pid && outer.start <= inner.start && inner.end() <= outer.end()
}

/// Whether a range lies inside one of the first `count` mappings.
spec fn within_one_of(inner: MappingModel, mappings: Seq<MappingModel>, count: int) -> bool {
    exists|m: int| 0 <= m < count && within(inner, #[trigger] mappings[m])
}

/// Parts of mappings that do not overlap do not overlap.
proof fn parts_apart(mappings: Seq<MappingModel>, count: int, left: MappingModel, right: MappingModel)
    requires
        ranges_apart(mappings),
        0 <= count < mappings.len(),
        within_one_of(left, mappings, count),
        within(right, mappings[count]),
        left.pid == right.pid,
    ensures
        !left.overlaps(right),
        !right.overlaps(left),
{
    let m = choose|m: int| 0 <= m < count && within(left, #[trigger] mappings[m]);
    assert(!mappings[m].overlaps(mappings[count]));
}

/// What is known of the first `count` mappings after a new one has taken its room.
spec fn room_taken(mappings: Seq<MappingModel>, new_mapping: MappingModel, count: int) -> bool {
    let stayed = kept(mappings, new_mapping, count);
    let left = remnants(mappings, new_mapping, count);
    &&& ranges_apart(stayed)
    &&& ranges_apart(left)
    &&& forall|i: int|
        0 <= i < stayed.len() ==> within_one_of(#[trigger] stayed[i], mappings, count)
            && !displaced(stayed[i], new_mapping)
    &&& forall|i: int|
        0 <= i < left.len() ==> within_one_of(#[trigger] left[i], mappings, count)
            && !left[i].overlaps(new_mapping)
    &&& forall|i: int, j: int|
        #![trigger stayed[i], left[j]]
        0 <= i < stayed.len() && 0 <= j < left.len() && stayed[i].pid == left[j].pid
            ==> !stayed[i].overlaps(left[j])
}

proof fn room_is_taken(mappings: Seq<MappingModel>, new_mapping: MappingModel, count: int)
    requires
        ranges_apart(mappings),
        0 <= count <= mappings.len(),
    ensures
        room_taken(mappings, new_mapping, count),
    decreases count,
{
    if count > 0 {
        let n = count - 1;
        room_is_taken(mappings, new_mapping, n);
        let last = mappings[n];
        let stayed0 = kept(mappings, new_mapping, n);
        let left0 = remnants(mappings, new_mapping, n);
        let stayed = kept(mappings, new_mapping, count);
        let left = remnants(mappings, new_mapping, count);
        assert(within(last, mappings[n]));
        assert forall|x: MappingModel| within_one_of(x, mappings, n) implies within_one_of(
            x,
            mappings,
            count,
        ) by {
            let m = choose|m: int| 0 <= m < n && within(x, #[trigger] mappings[m]);
            assert(0 <= m < count && within(x, mappings[m]));
        }
        if displaced(last, new_mapping) {
            let before = part_before(last, new_mapping);
            let after = part_after(last, new_mapping);
            let parts = before + after;
            assert(left =~= left0 + parts);
            assert forall|i: int| 0 <= i < parts.len() implies within(#[trigger] parts[i], last)
                && !parts[i].overlaps(new_mapping) by {
                if i < before.len() {
                    assert(parts[i] == before[i]);
                } else {
                    assert(parts[i] == after[i - before.len()]);
                }
            }
            assert(ranges_apart(parts)) by {
                assert forall|i: int, j: int|
                    #![trigger parts[i], parts[j]]
                    0 <= i < j < parts.len() && parts[i].pid == parts[j].pid implies
                    !parts[i].overlaps(parts[j]) by {
                    assert(parts[0] == before[0]);
                    assert(parts[1] == after[0]);
                }
            }
            assert forall|i: int| 0 <= i < left.len() implies within_one_of(
                #[trigger] left[i],
                mappings,
                count,
            ) && !left[i].overlaps(new_mapping) by {
                if i < left0.len() {
                    assert(left[i] == left0[i]);
                } else {
                    assert(left[i] == parts[i - left0.len()]);
                    assert(within(left[i], mappings[n]));
                }
            }
            assert forall|i: int, j: int|
                #![trigger left[i], left[j]]
                0 <= i < j < left.len() && left[i].pid == left[j].pid implies !left[i].overlaps(
                left[j],
            ) by {
                if j < left0.len() {
                    assert(left[i] == left0[i] && left[j] == left0[j]);
                } else if i < left0.len() {
                    assert(left[i] == left0[i] && left[j] == parts[j - left0.len()]);
                    parts_apart(mappings, n, left[i], left[j]);
                } else {
                    assert(left[i] == parts[i - left0.len()] && left[j] == parts[j - left0.len()]);
                }
            }
            assert forall|i: int, j: int|
                #![trigger stayed[i], left[j]]
                0 <= i < stayed.len() && 0 <= j < left.len() && stayed[i].pid
                    == left[j].pid implies !stayed[i].overlaps(left[j]) by {
                if j < left0.len() {
                    assert(left[j] == left0[j]);
                } else {
                    assert(left[j] == parts[j - left0.len()]);
                    parts_apart(mappings, n, stayed[i], left[j]);
                }
            }
        } else {
            assert forall|i: int| 0 <= i < stayed.len() implies within_one_of(
                #[trigger] stayed[i],
                mappings,
                count,
            ) && !displaced(stayed[i], new_mapping) by {
                if i < stayed0.len() {
                    assert(stayed[i] == stayed0[i]);
                } else {
                    assert(within(stayed[i], mappings[n]));
                }
            }
            assert forall|i: int, j: int|
                #![trigger stayed[i], stayed[j]]
                0 <= i < j < stayed.len() && stayed[i].pid == stayed[j].pid implies
                !stayed[i].overlaps(stayed[j]) by {
                assert(stayed[i] == stayed0[i]);
                if j < stayed0.len() {
                    assert(stayed[j] == stayed0[j]);
                } else {
                    parts_apart(mappings, n, stayed[i], stayed[j]);
                }
            }
            assert forall|i: int, j: int|
                #![trigger stayed[i], left[j]]
                0 <= i < stayed.len() && 0 <= j < left.len() && stayed[i].pid
                    == left[j].pid implies !stayed[i].overlaps(left[j]) by {
                if i < stayed0.len() {
                    assert(stayed[i] == stayed0[i]);
                } else {
                    parts_apart(mappings, n, left[j], stayed[i]);
                }
            }
        }
    }
}

/// Mappings of one process never overlap: a new mapping takes its room from those that were
/// there.
pub proof fn new_mapping_keeps_ranges_apart(
    mappings: Seq<MappingModel>,
    new_mapping: MappingModel,
)
    requires
        ranges_apart(mappings),
    ensures
        ranges_apart(with_mapping(mappings, new_mapping)),
{
    let count = mappings.len() as int;
    room_is_taken(mappings, new_mapping, count);
    let stayed = kept(mappings, new_mapping, count);
    let left = remnants(mappings, new_mapping, count);
    let all = with_mapping(mappings, new_mapping);
    assert forall|i: int, j: int|
        #![trigger all[i], all[j]]
        0 <= i < j < all.len() && all[i].pid == all[j].pid implies !all[i].overlaps(all[j]) by {
        if j < stayed.len() {
            assert(all[i] == stayed[i] && all[j] == stayed[j]);
        } else if j < stayed.len() + left.len() {
            assert(all[j] == left[j - stayed.len()]);
            if i < stayed.len() {
                assert(all[i] == stayed[i]);
            } else {
                assert(all[i] == left[i - stayed.len()]);
            }
        } else {
            if i < stayed.len() {
                assert(all[i] == stayed[i]);
            } else {
                assert(all[i] == left[i - stayed.len()]);
            }
        }
    }
}

/// A new mapping that overlaps none of its process is simply added.
proof fn undisplaced(mappings: Seq<MappingModel>, new_mapping: MappingModel, count: int)
    requires
        0 <= count <= mappings.len(),
        forall|m: int| 0 <= m < count ==> !displaced(#[trigger] mappings[m], new_mapping),
    ensures
        kept(mappings, new_mapping, count) == mappings.subrange(0, count),
        remnants(mappings, new_mapping, count) == Seq::<MappingModel>::empty(),
    decreases count,
{
    if count > 0 {
        undisplaced(mappings, new_mapping, count - 1);
        assert(mappings.subrange(0, count) =~= mappings.subrange(0, count - 1).push(
            mappings[count - 1],
        ));
    } else {
        assert(mappings.subrange(0, 0) =~= Seq::empty());
    }
}

impl MmapTable {
    /// Adds a mapping behind all others, whatever it overlaps.
    fn insert_mapping_without_overlap_fix(&mut self, mapping: Mapping)
        requires
            old(self).structured(),
        ensures
            final(self).structured(),
            final(self)@ == old(self)@.push(mapping@),
            final(self).source_ids() == with_source(old(self).source_ids(), mapping@.source_key()),
    {
        let ghost start = *self;
        let mut mapping = mapping;
        let ghost model = mapping@;
        let id: usize = self.intern_symbol_source(&mapping);
        mapping.symbol_source_id = id;
        assert(mapping@ =~= model);
        let index: usize = self.mappings.len();
        let ghost interned = *self;
        self.mappings.push(mapping);
        proof {
            let all = self@;
            assert(all =~= start@.push(model));
            assert forall|m: int| 0 <= m < index implies self.mappings@[m]
                == interned.mappings@[m] by {
            }
            assert forall|pid: u32| #[trigger]
                self.bucket_ids@.dom().contains(pid as u64) implies self.bucket_ids@[pid as u64]
                < self.buckets@.len() && indexes(
                self.buckets@[self.bucket_ids@[pid as u64] as int]@,
                all,
                pid,
                index as int,
            ) by {
                let entries = self.buckets@[self.bucket_ids@[pid as u64] as int]@;
                assert(indexes(entries, start@, pid, index as int));
                index_survives_growth(entries, start@, all, pid, index as int);
            }
            assert forall|pid: u32| #[trigger] some_of(all, index as int, pid) <==> some_of(
                start@,
                index as int,
                pid,
            ) by {
                if some_of(all, index as int, pid) {
                    let m = choose|m: int| 0 <= m < index && (#[trigger] all[m]).pid == pid;
                    assert(start@[m].pid == pid);
                }
                if some_of(start@, index as int, pid) {
                    let m = choose|m: int| 0 <= m < index && (#[trigger] start@[m]).pid == pid;
                    assert(all[m].pid == pid);
                }
            }
            assert forall|pid: u32| #[trigger] some_executable_of(all, index as int, pid)
                <==> some_executable_of(start@, index as int, pid) by {
                if some_executable_of(all, index as int, pid) {
                    let m = choose|m: int|
                        0 <= m < index && (#[trigger] all[m]).pid == pid
                            && !all[m].is_known_non_executable();
                    assert(start@[m].pid == pid);
                }
                if some_executable_of(start@, index as int, pid) {
                    let m = choose|m: int|
                        0 <= m < index && (#[trigger] start@[m]).pid == pid
                            && !start@[m].is_known_non_executable();
                    assert(all[m].pid == pid);
                }
            }
            assert forall|pid: u32| #[trigger] self.pids_with_mappings@.contains(pid) <==> pid
                != GLOBAL_PID && some_of(all, index as int, pid) by {
                assert(start.pids_with_mappings@.contains(pid) <==> pid != GLOBAL_PID && some_of(
                    start@,
                    index as int,
                    pid,
                ));
                assert(some_of(all, index as int, pid) <==> some_of(start@, index as int, pid));
            }
            assert forall|pid: u32| #[trigger] self.executable_pids@.contains(pid) <==> pid
                != GLOBAL_PID && some_executable_of(all, index as int, pid) by {
                assert(start.executable_pids@.contains(pid) <==> pid != GLOBAL_PID
                    && some_executable_of(start@, index as int, pid));
                assert(some_executable_of(all, index as int, pid) <==> some_executable_of(
                    start@,
                    index as int,
                    pid,
                ));
            }
            assert(some_of(all, index as int, GLOBAL_PID) <==> some_of(
                start@,
                index as int,
                GLOBAL_PID,
            ));
            assert(some_executable_of(all, index as int, GLOBAL_PID) <==> some_executable_of(
                start@,
                index as int,
                GLOBAL_PID,
            ));
            assert forall|m: int| 0 <= m < index implies self.bucket_ids@.dom().contains(
                (#[trigger] self.mappings@[m]).pid as u64,
            ) by {
                assert(start.bucket_ids@.dom().contains(start.mappings@[m].pid as u64));
            }
        }
        self.index_mapping(index);
        assert(self@ =~= start@.push(model));
    }
}

/// An index stays right when mappings are added behind those it covers.
proof fn index_survives_growth(
    entries: Seq<IndexedMapping>,
    mappings: Seq<MappingModel>,
    more: Seq<MappingModel>,
    pid: u32,
    count: int,
)
    requires
        indexes(entries, mappings, pid, count),
        0 <= count <= mappings.len() <= more.len(),
        forall|m: int| 0 <= m < count ==> mappings[m] == #[trigger] more[m],
    ensures
        indexes(entries, more, pid, count),
{
    assert forall|i: int| 0 <= i < entries.len() implies (#[trigger] entries[i]).index < count
        && more[entries[i].index as int].pid == pid && entries[i].start
        == more[entries[i].index as int].start && entries[i].max_end == largest_end(
        entries,
        more,
        i + 1,
    ) by {
        assert(mappings[entries[i].index as int] == more[entries[i].index as int]);
        largest_end_survives_growth(entries, mappings, more, count, i + 1);
    }
    assert forall|m: int| 0 <= m < count && (#[trigger] more[m]).pid == pid implies exists|i: int|
        0 <= i < entries.len() && (#[trigger] entries[i]).index == m by {
        assert(mappings[m].pid == pid);
    }
}

proof fn largest_end_survives_growth(
    entries: Seq<IndexedMapping>,
    mappings: Seq<MappingModel>,
    more: Seq<MappingModel>,
    count: int,
    upto: int,
)
    requires
        upto <= entries.len(),
        forall|i: int| 0 <= i < entries.len() ==> (#[trigger] entries[i]).index < count,
        forall|m: int| 0 <= m < count ==> mappings[m] == #[trigger] more[m],
    ensures
        largest_end(entries, mappings, upto) == largest_end(entries, more, upto),
    decreases upto,
{
    if upto > 0 {
        largest_end_survives_growth(entries, mappings, more, count, upto - 1);
        assert(entries[upto - 1].index < count);
        assert(mappings[entries[upto - 1].index as int] == more[entries[upto - 1].index as int]);
    }
}

impl MmapTable {
    /// Takes the room of a new mapping from those that overlap it, and hands out what is left of
    /// them.
    fn remove_overlapping_mappings(&mut self, new_mapping: &Mapping) -> (parts: Vec<Mapping>)
        requires
            old(self).structured(),
        ensures
            final(self).structured(),
            final(self)@ == kept(old(self)@, new_mapping@, old(self)@.len() as int),
            models(parts@) == remnants(old(self)@, new_mapping@, old(self)@.len() as int),
            final(self).source_ids() == old(self).source_ids(),
    {
        let mut stayed: Vec<Mapping> = Vec::with_capacity(self.mappings.len());
        let mut parts: Vec<Mapping> = Vec::new();
        let mut before: Vec<Mapping> = Vec::new();
        std::mem::swap(&mut before, &mut self.mappings);
        let ghost all = before@;
        assert(models(stayed@) =~= Seq::empty());
        assert(models(parts@) =~= Seq::empty());
        for mapping in it: before
            invariant
                it.seq() == all,
                models(all) == old(self)@,
                old(self).structured(),
                self.symbol_source_ids == old(self).symbol_source_ids,
                old(self).mappings@ == all,
                models(stayed@) == kept(models(all), new_mapping@, it.index() as int),
                models(parts@) == remnants(models(all), new_mapping@, it.index() as int),
                forall|m: int|
                    0 <= m < stayed@.len() ==> self.symbol_source_ids@.contains_pair(
                        (#[trigger] stayed@[m])@.source_key(),
                        stayed@[m].symbol_source_id as u64,
                    ),
        {
            let ghost n = it.index() as int;
            let ghost stayed0 = models(stayed@);
            let ghost parts0 = models(parts@);
            assert(mapping == all[n]);
            assert(models(all)[n] == mapping@);
            assert(old(self).mappings@[n] == mapping);
            if mapping.pid != new_mapping.pid || !mapping.overlaps(new_mapping) {
                stayed.push(mapping);
                assert(models(stayed@) =~= stayed0.push(mapping@));
            } else {
                if mapping.start < new_mapping.start {
                    let mut front = mapping.duplicate();
                    front.len = new_mapping.start - mapping.start;
                    proof {
                        assert(front@ =~= part_before(mapping@, new_mapping@)[0]);
                    }
                    parts.push(front);
                    assert(models(parts@) =~= parts0.push(front@));
                }
                let ghost parts1 = models(parts@);
                assert(parts1 =~= parts0 + part_before(mapping@, new_mapping@));
                let old_end: u64 = mapping.end();
                let new_end: u64 = new_mapping.end();
                let ghost model = mapping@;
                if old_end > new_end {
                    let mut behind = mapping;
                    let moved: u64 = new_end - behind.start;
                    behind.start = new_end;
                    behind.pgoff = behind.pgoff.saturating_add(moved);
                    behind.len = old_end - new_end;
                    proof {
                        assert(behind@ =~= part_after(model, new_mapping@)[0]);
                    }
                    parts.push(behind);
                    assert(models(parts@) =~= parts1.push(behind@));
                }
                assert(models(parts@) =~= parts1 + part_after(model, new_mapping@));
            }
        }
        self.mappings = stayed;
        self.rebuild_pid_indexes();
        parts
    }

    /// Adds a mapping, taking its room from those of its process that overlap it.
    fn insert_mapping(&mut self, mapping: Mapping)
        requires
            old(self).wf(),
        ensures
            final(self).wf(),
            final(self)@ == with_mapping(old(self)@, mapping@),
            final(self).source_ids() == with_sources(
                old(self).source_ids(),
                remnants(old(self)@, mapping@, old(self)@.len() as int).push(mapping@),
            ),
    {
        let ghost start = *self;
        let ghost count = self@.len() as int;
        let ghost left = remnants(self@, mapping@, count);
        let ghost stayed = kept(self@, mapping@, count);
        let parts = self.remove_overlapping_mappings(&mapping);
        let ghost all = parts@;
        assert(left.subrange(0, 0) =~= Seq::empty());
        assert(stayed + left.subrange(0, 0) =~= stayed);
        for part in it: parts
            invariant
                it.seq() == all,
                models(all) == left,
                self.structured(),
                self@ == stayed + left.subrange(0, it.index() as int),
                self.source_ids() == with_sources(
                    start.source_ids(),
                    left.subrange(0, it.index() as int),
                ),
        {
            let ghost n = it.index() as int;
            assert(part == all[n]);
            assert(models(all)[n] == part@);
            self.insert_mapping_without_overlap_fix(part);
            proof {
                assert(left.subrange(0, n + 1).drop_last() =~= left.subrange(0, n));
                assert(self@ =~= stayed + left.subrange(0, n + 1));
            }
        }
        assert(left.subrange(0, left.len() as int) =~= left);
        self.insert_mapping_without_overlap_fix(mapping);
        proof {
            assert(left.push(mapping@).drop_last() =~= left);
            new_mapping_keeps_ranges_apart(start@, mapping@);
        }
    }

    /// Adds a mapping that states no protection and no inode.
    pub fn insert_mmap(&mut self, record: MmapRecord)
        requires
            old(self).wf(),
        ensures
            final(self).wf(),
            final(self)@ == with_mapping(old(self)@, plain_mapping(record@)),
            final(self).source_ids() == with_sources(
                old(self).source_ids(),
                remnants(old(self)@, plain_mapping(record@), old(self)@.len() as int).push(
                    plain_mapping(record@),
                ),
            ),
    {
        let ghost model = plain_mapping(record@);
        let mapping = Mapping {
            pid: record.pid,
            start: record.start,
            len: record.len,
            pgoff: record.pgoff,
            symbol_source_id: 0,
            path: record.path,
            build_id: None,
            file_identity: None,
            prot: None,
        };
        assert(mapping@ =~= model);
        self.insert_mapping(mapping);
    }

    /// Adds a mapping of a file with an inode.
    pub fn insert_mmap2(&mut self, record: Mmap2Record)
        requires
            old(self).wf(),
        ensures
            final(self).wf(),
            final(self)@ == with_mapping(old(self)@, inode_mapping(record@, None)),
            final(self).source_ids() == with_sources(
                old(self).source_ids(),
                remnants(old(self)@, inode_mapping(record@, None), old(self)@.len() as int).push(
                    inode_mapping(record@, None),
                ),
            ),
    {
        self.insert_mmap2_with_build_id(record, None);
    }

    /// Adds a mapping of a file with an inode and perhaps a build id.
    pub fn insert_mmap2_with_build_id(&mut self, record: Mmap2Record, build_id: Option<Vec<u8>>)
        requires
            old(self).wf(),
        ensures
            final(self).wf(),
            final(self)@ == with_mapping(
                old(self)@,
                inode_mapping(record@, build_id_view(build_id)),
            ),
            final(self).source_ids() == with_sources(
                old(self).source_ids(),
                remnants(
                    old(self)@,
                    inode_mapping(record@, build_id_view(build_id)),
                    old(self)@.len() as int,
                ).push(inode_mapping(record@, build_id_view(build_id))),
            ),
    {
        let ghost model = inode_mapping(record@, build_id_view(build_id));
        let mapping = Mapping {
            pid: record.pid,
            start: record.start,
            len: record.len,
            pgoff: record.pgoff,
            symbol_source_id: 0,
            path: record.path,
            build_id,
            file_identity: Some(
                FileIdentity {
                    major: record.major,
                    minor: record.minor,
                    inode: record.inode,
                    inode_generation: record.inode_generation,
                },
            ),
            prot: Some(record.prot),
        };
        assert(mapping@ =~= model);
        self.insert_mapping(mapping);
    }

    /// Adds a mapping of a file with a build id.
    pub fn insert_mmap2_build_id(&mut self, record: Mmap2BuildIdRecord)
        requires
            old(self).wf(),
        ensures
            final(self).wf(),
            final(self)@ == with_mapping(old(self)@, build_id_mapping(record@)),
            final(self).source_ids() == with_sources(
                old(self).source_ids(),
                remnants(old(self)@, build_id_mapping(record@), old(self)@.len() as int).push(
                    build_id_mapping(record@),
                ),
            ),
    {
        let ghost model = build_id_mapping(record@);
        let mapping = Mapping {
            pid: record.pid,
            start: record.start,
            len: record.len,
            pgoff: record.pgoff,
            symbol_source_id: 0,
            path: record.path,
            build_id: Some(record.build_id),
            file_identity: None,
            prot: Some(record.prot),
        };
        assert(mapping@ =~= model);
        self.insert_mapping(mapping);
    }
}

/// The mapping that a plain mapping record states.
pub open spec fn plain_mapping(record: MmapModel) -> MappingModel {
    MappingModel {
        pid: record.pid,
        start: record.start,
        len: record.len,
        pgoff: record.pgoff,
        path: record.path,
        build_id: None,
        file_identity: None,
        prot: None,
    }
}

/// The mapping that a mapping record with an inode states.
pub open spec fn inode_mapping(record: Mmap2Model, build_id: Option<Seq<u8>>) -> MappingModel {
    MappingModel {
        pid: record.pid,
        start: record.start,
        len: record.len,
        pgoff: record.pgoff,
        path: record.path,
        build_id,
        file_identity: Some(
            FileIdentity {
                major: record.major,
                minor: record.minor,
                inode: record.inode,
                inode_generation: record.inode_generation,
            },
        ),
        prot: Some(record.prot),
    }
}

/// The mapping that a mapping record with a build id states.
pub open spec fn build_id_mapping(record: Mmap2BuildIdModel) -> MappingModel {
    MappingModel {
        pid: record.pid,
        start: record.start,
        len: record.len,
        pgoff: record.pgoff,
        path: record.path,
        build_id: Some(record.build_id),
        file_identity: None,
        prot: Some(record.prot),
    }
}

/// The first `count` mappings without those of a process.
pub open spec fn without_pid(mappings: Seq<MappingModel>, pid: u32, count: int) -> Seq<MappingModel>
    decreases count,
{
    if count <= 0 {
        Seq::empty()
    } else if mappings[count - 1].pid == pid {
        without_pid(mappings, pid, count - 1)
    } else {
        without_pid(mappings, pid, count - 1).push(mappings[count - 1])
    }
}

/// The mappings of a process among the first `count`, given to another process.
pub open spec fn handed_down(
    mappings: Seq<MappingModel>,
    parent: u32,
    child: u32,
    count: int,
) -> Seq<MappingModel>
    decreases count,
{
    if count <= 0 {
        Seq::empty()
    } else if mappings[count - 1].pid == parent {
        handed_down(mappings, parent, child, count - 1).push(
            MappingModel { pid: child, ..mappings[count - 1] },
        )
    } else {
        handed_down(mappings, parent, child, count - 1)
    }
}

proof fn without_pid_apart(mappings: Seq<MappingModel>, pid: u32, count: int)
    requires
        ranges_apart(mappings),
        0 <= count <= mappings.len(),
    ensures
        ranges_apart(without_pid(mappings, pid, count)),
        forall|i: int|
            0 <= i < without_pid(mappings, pid, count).len() ==> (#[trigger] without_pid(
                mappings,
                pid,
                count,
            )[i]).pid != pid && within_one_of(
                without_pid(mappings, pid, count)[i],
                mappings,
                count,
            ),
    decreases count,
{
    if count > 0 {
        let n = count - 1;
        without_pid_apart(mappings, pid, n);
        let before = without_pid(mappings, pid, n);
        let all = without_pid(mappings, pid, count);
        assert(within(mappings[n], mappings[n]));
        assert forall|i: int| 0 <= i < all.len() implies (#[trigger] all[i]).pid != pid
            && within_one_of(all[i], mappings, count) by {
            if i < before.len() {
                assert(all[i] == before[i]);
                let m = choose|m: int| 0 <= m < n && within(all[i], #[trigger] mappings[m]);
                assert(within(all[i], mappings[m]));
            } else {
                assert(within(all[i], mappings[n]));
            }
        }
        assert forall|i: int, j: int|
            #![trigger all[i], all[j]]
            0 <= i < j < all.len() && all[i].pid == all[j].pid implies !all[i].overlaps(all[j]) by {
            assert(all[i] == before[i]);
            if j < before.len() {
                assert(all[j] == before[j]);
            } else {
                parts_apart(mappings, n, all[i], all[j]);
            }
        }
    }
}

/// Mappings handed down lie where those of the parent lie.
proof fn handed_down_apart(mappings: Seq<MappingModel>, parent: u32, child: u32, count: int)
    requires
        ranges_apart(mappings),
        0 <= count <= mappings.len(),
    ensures
        ranges_apart(handed_down(mappings, parent, child, count)),
        forall|i: int|
            0 <= i < handed_down(mappings, parent, child, count).len() ==> (#[trigger] handed_down(
                mappings,
                parent,
                child,
                count,
            )[i]).pid == child && within_one_of(
                (MappingModel { pid: parent, ..handed_down(mappings, parent, child, count)[i] }),
                mappings,
                count,
            ),
    decreases count,
{
    if count > 0 {
        let n = count - 1;
        handed_down_apart(mappings, parent, child, n);
        let before = handed_down(mappings, parent, child, n);
        let all = handed_down(mappings, parent, child, count);
        assert(within(mappings[n], mappings[n]));
        assert forall|i: int| 0 <= i < all.len() implies (#[trigger] all[i]).pid == child
            && within_one_of((MappingModel { pid: parent, ..all[i] }), mappings, count) by {
            let original = MappingModel { pid: parent, ..all[i] };
            if i < before.len() {
                assert(all[i] == before[i]);
                let m = choose|m: int| 0 <= m < n && within(original, #[trigger] mappings[m]);
                assert(within(original, mappings[m]));
            } else {
                assert(within(original, mappings[n]));
            }
        }
        assert forall|i: int, j: int|
            #![trigger all[i], all[j]]
            0 <= i < j < all.len() && all[i].pid == all[j].pid implies !all[i].overlaps(all[j]) by {
            assert(all[i] == before[i]);
            if j < before.len() {
                assert(all[j] == before[j]);
            } else {
                parts_apart(
                    mappings,
                    n,
                    (MappingModel { pid: parent, ..all[i] }),
                    (MappingModel { pid: parent, ..all[j] }),
                );
            }
        }
    }
}

impl MmapTable {
    /// Gives a child process the mappings of its parent in place of its own.
    pub fn clone_pid_mappings(&mut self, parent_pid: u32, child_pid: u32)
        requires
            old(self).wf(),
        ensures
            final(self).wf(),
            parent_pid == child_pid ==> final(self)@ == old(self)@ && final(self).source_ids()
                == old(self).source_ids(),
            parent_pid != child_pid ==> final(self)@ == without_pid(
                old(self)@,
                child_pid,
                old(self)@.len() as int,
            ) + handed_down(old(self)@, parent_pid, child_pid, old(self)@.len() as int)
                && final(self).source_ids() == with_sources(
                old(self).source_ids(),
                handed_down(old(self)@, parent_pid, child_pid, old(self)@.len() as int),
            ),
    {
        if parent_pid == child_pid {
            return;
        }
        let ghost start = *self;
        let ghost total = self@.len() as int;
        let mut stayed: Vec<Mapping> = Vec::with_capacity(self.mappings.len());
        let mut cloned: Vec<Mapping> = Vec::new();
        let mut before: Vec<Mapping> = Vec::new();
        std::mem::swap(&mut before, &mut self.mappings);
        let ghost all = before@;
        assert(models(stayed@) =~= Seq::empty());
        assert(models(cloned@) =~= Seq::empty());
        for mapping in it: before
            invariant
                it.seq() == all,
                models(all) == start@,
                start.structured(),
                start.mappings@ == all,
                parent_pid != child_pid,
                self.symbol_source_ids == start.symbol_source_ids,
                models(stayed@) == without_pid(models(all), child_pid, it.index() as int),
                models(cloned@) == handed_down(
                    models(all),
                    parent_pid,
                    child_pid,
                    it.index() as int,
                ),
                forall|m: int|
                    0 <= m < stayed@.len() ==> self.symbol_source_ids@.contains_pair(
                        (#[trigger] stayed@[m])@.source_key(),
                        stayed@[m].symbol_source_id as u64,
                    ),
        {
            let ghost n = it.index() as int;
            let ghost stayed0 = models(stayed@);
            let ghost cloned0 = models(cloned@);
            assert(mapping == all[n]);
            assert(models(all)[n] == mapping@);
            assert(start.mappings@[n] == mapping);
            if mapping.pid == parent_pid {
                let mut copy = mapping.duplicate();
                copy.pid = child_pid;
                proof {
                    assert(copy@ =~= MappingModel { pid: child_pid, ..mapping@ });
                }
                cloned.push(copy);
                assert(models(cloned@) =~= cloned0.push(copy@));
            }
            if mapping.pid != child_pid {
                stayed.push(mapping);
                assert(models(stayed@) =~= stayed0.push(mapping@));
            }
        }
        self.mappings = stayed;
        self.rebuild_pid_indexes();
        let ghost rest = without_pid(start@, child_pid, total);
        let ghost copies = handed_down(start@, parent_pid, child_pid, total);
        let ghost owned = cloned@;
        proof {
            without_pid_apart(start@, child_pid, total);
            handed_down_apart(start@, parent_pid, child_pid, total);
            assert(copies.subrange(0, 0) =~= Seq::empty());
            assert(rest + copies.subrange(0, 0) =~= rest);
        }
        for copy in it: cloned
            invariant
                it.seq() == owned,
                models(owned) == copies,
                ranges_apart(rest),
                ranges_apart(copies),
                forall|i: int| 0 <= i < rest.len() ==> (#[trigger] rest[i]).pid != child_pid,
                forall|i: int| 0 <= i < copies.len() ==> (#[trigger] copies[i]).pid == child_pid,
                self.wf(),
                self@ == rest + copies.subrange(0, it.index() as int),
                self.source_ids() == with_sources(
                    start.source_ids(),
                    copies.subrange(0, it.index() as int),
                ),
        {
            let ghost n = it.index() as int;
            assert(copy == owned[n]);
            assert(models(owned)[n] == copy@);
            proof {
                let now = self@;
                assert forall|m: int| 0 <= m < now.len() implies !displaced(
                    #[trigger] now[m],
                    copy@,
                ) by {
                    if m < rest.len() {
                        assert(now[m] == rest[m]);
                    } else {
                        assert(now[m] == copies[m - rest.len()]);
                        assert(!copies[m - rest.len()].overlaps(copies[n]));
                    }
                }
                undisplaced(now, copy@, now.len() as int);
                assert(now.subrange(0, now.len() as int) =~= now);
                assert(Seq::<MappingModel>::empty().push(copy@).drop_last() =~= Seq::empty());
                assert(with_sources(
                    self.source_ids(),
                    Seq::<MappingModel>::empty().push(copy@),
                ) == with_source(self.source_ids(), copy@.source_key())) by {
                    reveal_with_fuel(with_sources, 2);
                }
            }
            self.insert_mapping(copy);
            proof {
                assert(copies.subrange(0, n + 1).drop_last() =~= copies.subrange(0, n));
                assert(self@ =~= rest + copies.subrange(0, n + 1));
            }
        }
        assert(copies.subrange(0, copies.len() as int) =~= copies);
    }
}

/// What is known of an address that belongs to a mapping.
#[verifier::ext_equal]
pub struct ResolvedModel {
    pub path: Seq<char>,
    pub relative_address: u64,
    pub build_id: Option<Seq<u8>>,
    pub file_identity: Option<FileIdentity>,
    pub kernel_relocation: Option<(Seq<char>, u64)>,
}

/// What a mapping says of an address in it.
pub open spec fn resolution_in(mapping: MappingModel, ip: u64) -> ResolvedModel {
    ResolvedModel {
        path: mapping.path,
        relative_address: mapping.relative_address(ip),
        build_id: mapping.build_id,
        file_identity: mapping.file_identity,
        kernel_relocation: mapping.kernel_relocation(),
    }
}

/// What the mappings say of an address of a process.
pub open spec fn resolution(mappings: Seq<MappingModel>, pid: u32, ip: u64) -> Option<
    ResolvedModel,
> {
    match resolved(mappings, pid, ip) {
        Some(index) => Some(resolution_in(mappings[index], ip)),
        None => None,
    }
}

#[derive(Clone, Debug, Eq, PartialEq)]
pub struct ResolvedMapping {
    pub path: String,
    pub relative_address: u64,
    pub build_id: Option<Vec<u8>>,
    pub file_identity: Option<FileIdentity>,
    pub kernel_relocation: Option<KernelRelocation>,
}

impl View for ResolvedMapping {
    type V = ResolvedModel;

    open spec fn view(&self) -> ResolvedModel {
        ResolvedModel {
            path: self.path@,
            relative_address: self.relative_address,
            build_id: build_id_view(self.build_id),
            file_identity: self.file_identity,
            kernel_relocation: relocation_view(self.kernel_relocation),
        }
    }
}

#[derive(Clone, Debug, Eq, PartialEq)]
pub struct ResolvedMappingRef<'a> {
    pub symbol_source_id: usize,
    pub path: &'a str,
    pub relative_address: u64,
    pub build_id: Option<&'a [u8]>,
    pub file_identity: Option<FileIdentity>,
    pub kernel_relocation: Option<KernelRelocation>,
}

/// The bytes of an optional borrowed build id.
pub open spec fn build_id_ref_view(build_id: Option<&[u8]>) -> Option<Seq<u8>> {
    match build_id {
        Some(build_id) => Some(build_id@),
        None => None,
    }
}

impl<'a> View for ResolvedMappingRef<'a> {
    type V = ResolvedModel;

    open spec fn view(&self) -> ResolvedModel {
        ResolvedModel {
            path: self.path@,
            relative_address: self.relative_address,
            build_id: build_id_ref_view(self.build_id),
            file_identity: self.file_identity,
            kernel_relocation: relocation_view(self.kernel_relocation),
        }
    }
}

/// Which mappings answered the last lookup.
#[derive(Clone, Copy, Debug, Eq, PartialEq, Structural)]
pub struct MappingResolveCache {
    pub pid: Option<u32>,
    pub pid_index: Option<usize>,
    pub global_index: Option<usize>,
}

impl Default for MappingResolveCache {
    fn default() -> (cache: MappingResolveCache)
        ensures
            cache == (MappingResolveCache { pid: None, pid_index: None, global_index: None }),
    {
        MappingResolveCache { pid: None, pid_index: None, global_index: None }
    }
}

/// An optional position among the mappings.
pub open spec fn position_of(index: Option<usize>) -> Option<int> {
    match index {
        Some(index) => Some(index as int),
        None => None,
    }
}

/// Whether a cache holds what a lookup found.
pub open spec fn cache_after(
    before: MappingResolveCache,
    after: MappingResolveCache,
    mappings: Seq<MappingModel>,
    pid: u32,
    ip: u64,
) -> bool {
    &&& position_of(after.global_index) == latest(mappings, GLOBAL_PID, ip)
    &&& if pid == GLOBAL_PID {
        after.pid == before.pid && after.pid_index == before.pid_index
    } else {
        after.pid == Some(pid) && position_of(after.pid_index) == latest(mappings, pid, ip)
    }
}

#[derive(Clone, Copy, Debug, Eq, PartialEq)]
pub struct UserMapping<'a> {
    pub pid: u32,
    pub start: u64,
    pub len: u64,
    pub pgoff: u64,
    pub prot: Option<u32>,
    pub path: &'a str,
    pub build_id: Option<&'a [u8]>,
    pub file_identity: Option<FileIdentity>,
}

impl<'a> View for UserMapping<'a> {
    type V = MappingModel;

    open spec fn view(&self) -> MappingModel {
        MappingModel {
            pid: self.pid,
            start: self.start,
            len: self.len,
            pgoff: self.pgoff,
            path: self.path@,
            build_id: build_id_ref_view(self.build_id),
            file_identity: self.file_identity,
            prot: self.prot,
        }
    }
}

impl Mapping {
    fn build_id_ref(&self) -> (build_id: Option<&[u8]>)
        ensures
            build_id_ref_view(build_id) == self@.build_id,
    {
        match &self.build_id {
            Some(build_id) => Some(build_id.as_slice()),
            None => None,
        }
    }

    fn user_mapping(&self) -> (mapping: UserMapping<'_>)
        ensures
            mapping@ == self@,
    {
        let mapping = UserMapping {
            pid: self.pid,
            start: self.start,
            len: self.len,
            pgoff: self.pgoff,
            prot: self.prot,
            path: self.path.as_str(),
            build_id: self.build_id_ref(),
            file_identity: self.file_identity,
        };
        assert(mapping@ =~= self@);
        mapping
    }

    fn resolve(&self, ip: u64) -> (mapping: ResolvedMappingRef<'_>)
        requires
            self.start <= ip,
        ensures
            mapping@ == resolution_in(self@, ip),
            mapping.symbol_source_id == self.symbol_source_id,
    {
        let mapping = ResolvedMappingRef {
            symbol_source_id: self.symbol_source_id,
            path: self.path.as_str(),
            relative_address: self.relative_address(ip),
            build_id: self.build_id_ref(),
            file_identity: self.file_identity,
            kernel_relocation: self.kernel_relocation(),
        };
        assert(mapping@ =~= resolution_in(self@, ip));
        mapping
    }
}

/// The user mappings among the first `count` mappings.
pub open spec fn user_mappings_of(mappings: Seq<MappingModel>, count: int) -> Seq<MappingModel>
    decreases count,
{
    if count <= 0 {
        Seq::empty()
    } else if mappings[count - 1].is_user_file_mapping() {
        user_mappings_of(mappings, count - 1).push(mappings[count - 1])
    } else {
        user_mappings_of(mappings, count - 1)
    }
}

/// Whether a resolved mapping carries the number of its symbol source.
pub open spec fn numbered(
    ids: Map<SourceKeyModel, u64>,
    mappings: Seq<MappingModel>,
    pid: u32,
    ip: u64,
    found: ResolvedMappingRef<'_>,
) -> bool {
    resolved(mappings, pid, ip) matches Some(index) && ids.contains_pair(
        mappings[index].source_key(),
        found.symbol_source_id as u64,
    )
}

impl MmapTable {
    fn resolve_mapping_index_for_pid(&self, pid: u32, ip: u64) -> (found: Option<usize>)
        requires
            self.wf(),
        ensures
            position_of(found) == latest(self@, pid, ip),
            found matches Some(index) ==> index < self.mappings@.len()
                && self.mappings@[index as int]@.holds(pid, ip),
    {
        let found = match self.bucket_ids.get(pid as u64) {
            Some(bucket) => {
                assert(self.bucket_ids@.dom().contains(pid as u64));
                search_entries(&self.buckets[bucket as usize], &self.mappings, pid, ip)
            },
            None => {
                proof {
                    assert forall|m: int| 0 <= m < self@.len() implies !(#[trigger] self@[m]).holds(
                        pid,
                        ip,
                    ) by {
                        assert(self.bucket_ids@.dom().contains(self.mappings@[m].pid as u64));
                    }
                    latest_below_is(self@, self@.len() as int, pid, ip, None);
                }
                None
            },
        };
        proof {
            latest_below_holds(self@, self@.len() as int, pid, ip);
        }
        found
    }

    fn later_start(&self, own: Option<usize>, global: Option<usize>) -> (found: Option<usize>)
        requires
            own matches Some(index) ==> index < self.mappings@.len(),
            global matches Some(index) ==> index < self.mappings@.len(),
        ensures
            found == match (own, global) {
                (Some(left), Some(right)) => if self.mappings@[left as int].start
                    >= self.mappings@[right as int].start {
                    own
                } else {
                    global
                },
                (Some(_), None) => own,
                (None, _) => global,
            },
    {
        match (own, global) {
            (Some(left), Some(right)) => if self.mappings[left].start
                >= self.mappings[right].start {
                own
            } else {
                global
            },
            (Some(_), None) => own,
            (None, _) => global,
        }
    }

    fn resolve_mapping_index(&self, pid: u32, ip: u64) -> (found: Option<usize>)
        requires
            self.wf(),
        ensures
            position_of(found) == resolved(self@, pid, ip),
            found matches Some(index) ==> index < self.mappings@.len()
                && self.mappings@[index as int]@.start <= ip,
    {
        let own: Option<usize> = self.resolve_mapping_index_for_pid(pid, ip);
        if pid == GLOBAL_PID {
            return own;
        }
        let global: Option<usize> = self.resolve_mapping_index_for_pid(GLOBAL_PID, ip);
        self.later_start(own, global)
    }

    fn resolve_mapping_index_cached(
        &self,
        pid: u32,
        ip: u64,
        cache: &mut MappingResolveCache,
    ) -> (found: Option<usize>)
        requires
            self.wf(),
        ensures
            position_of(found) == resolved(self@, pid, ip),
            found matches Some(index) ==> index < self.mappings@.len()
                && self.mappings@[index as int]@.start <= ip,
            cache_after(*old(cache), *final(cache), self@, pid, ip),
    {
        let global: Option<usize> = self.resolve_mapping_index_for_pid(GLOBAL_PID, ip);
        cache.global_index = global;
        if pid == GLOBAL_PID {
            return global;
        }
        let own: Option<usize> = self.resolve_mapping_index_for_pid(pid, ip);
        cache.pid = Some(pid);
        cache.pid_index = own;
        self.later_start(own, global)
    }

    /// Resolves an address of a process.
    #[must_use]
    pub fn resolve(&self, pid: u32, ip: u64) -> (mapping: Option<ResolvedMapping>)
        requires
            self.wf(),
        ensures
            match mapping {
                Some(mapping) => resolution(self@, pid, ip) == Some(mapping@),
                None => resolution(self@, pid, ip) is None,
            },
    {
        match self.resolve_ref(pid, ip) {
            Some(found) => {
                let mapping = ResolvedMapping {
                    path: found.path.to_string(),
                    relative_address: found.relative_address,
                    build_id: match found.build_id {
                        Some(build_id) => Some(slice_to_vec(build_id)),
                        None => None,
                    },
                    file_identity: found.file_identity,
                    kernel_relocation: found.kernel_relocation,
                };
                assert(mapping@ =~= resolution(self@, pid, ip)->Some_0);
                Some(mapping)
            },
            None => None,
        }
    }

    /// Resolves an address of a process without copying.
    #[must_use]
    pub fn resolve_ref(&self, pid: u32, ip: u64) -> (mapping: Option<ResolvedMappingRef<'_>>)
        requires
            self.wf(),
        ensures
            match mapping {
                Some(mapping) => resolution(self@, pid, ip) == Some(mapping@) && numbered(
                    self.source_ids(),
                    self@,
                    pid,
                    ip,
                    mapping,
                ),
                None => resolution(self@, pid, ip) is None,
            },
    {
        match self.resolve_mapping_index(pid, ip) {
            Some(index) => {
                assert(self@[index as int] == self.mappings@[index as int]@);
                Some(self.mappings[index].resolve(ip))
            },
            None => None,
        }
    }

    /// Resolves an address of a process and remembers which mappings answered.
    #[must_use]
    pub fn resolve_ref_cached(
        &self,
        pid: u32,
        ip: u64,
        cache: &mut MappingResolveCache,
    ) -> (mapping: Option<ResolvedMappingRef<'_>>)
        requires
            self.wf(),
        ensures
            match mapping {
                Some(mapping) => resolution(self@, pid, ip) == Some(mapping@) && numbered(
                    self.source_ids(),
                    self@,
                    pid,
                    ip,
                    mapping,
                ),
                None => resolution(self@, pid, ip) is None,
            },
            cache_after(*old(cache), *final(cache), self@, pid, ip),
    {
        match self.resolve_mapping_index_cached(pid, ip, cache) {
            Some(index) => {
                assert(self@[index as int] == self.mappings@[index as int]@);
                Some(self.mappings[index].resolve(ip))
            },
            None => None,
        }
    }

    /// Whether an address of a process belongs to a mapping.
    #[must_use]
    pub fn has_mapping_for_pid(&self, pid: u32, ip: u64) -> (found: bool)
        requires
            self.wf(),
        ensures
            found == (resolved(self@, pid, ip) is Some),
    {
        self.resolve_mapping_index(pid, ip).is_some()
    }

    /// Whether an address of a process belongs to a mapping, remembering which one.
    #[must_use]
    pub fn has_mapping_for_pid_cached(
        &self,
        pid: u32,
        ip: u64,
        cache: &mut MappingResolveCache,
    ) -> (found: bool)
        requires
            self.wf(),
        ensures
            found == (resolved(self@, pid, ip) is Some),
            cache_after(*old(cache), *final(cache), self@, pid, ip),
    {
        self.resolve_mapping_index_cached(pid, ip, cache).is_some()
    }

    /// The path of the mapping that an address of a process belongs to.
    #[must_use]
    pub fn mapping_path(&self, pid: u32, ip: u64) -> (path: Option<&str>)
        requires
            self.wf(),
        ensures
            match (path, resolved(self@, pid, ip)) {
                (Some(path), Some(index)) => path@ == self@[index].path,
                (None, None) => true,
                _ => false,
            },
    {
        match self.resolve_mapping_index(pid, ip) {
            Some(index) => Some(self.mappings[index].path.as_str()),
            None => None,
        }
    }

    /// The path of the mapping that an address of a process belongs to, remembering which one.
    #[must_use]
    pub fn mapping_path_cached(
        &self,
        pid: u32,
        ip: u64,
        cache: &mut MappingResolveCache,
    ) -> (path: Option<&str>)
        requires
            self.wf(),
        ensures
            match (path, resolved(self@, pid, ip)) {
                (Some(path), Some(index)) => path@ == self@[index].path,
                (None, None) => true,
                _ => false,
            },
            cache_after(*old(cache), *final(cache), self@, pid, ip),
    {
        match self.resolve_mapping_index_cached(pid, ip, cache) {
            Some(index) => Some(self.mappings[index].path.as_str()),
            None => None,
        }
    }

    /// The mappings of files into processes, in the order in which they were made.
    pub fn user_mappings(&self) -> (mappings: Vec<UserMapping<'_>>)
        ensures
            crate::text::views(mappings@) == user_mappings_of(self@, self@.len() as int),
    {
        let mut mappings: Vec<UserMapping<'_>> = Vec::new();
        let mut index: usize = 0;
        assert(crate::text::views(mappings@) =~= Seq::empty());
        while index < self.mappings.len()
            invariant
                index <= self.mappings@.len(),
                crate::text::views(mappings@) == user_mappings_of(self@, index as int),
            decreases self.mappings@.len() - index,
        {
            let ghost before = crate::text::views(mappings@);
            assert(self@[index as int] == self.mappings@[index as int]@);
            if self.mappings[index].is_user_file_mapping() {
                let mapping = self.mappings[index].user_mapping();
                mappings.push(mapping);
                assert(crate::text::views(mappings@) =~= before.push(mapping@));
            }
            index += 1;
        }
        mappings
    }

    /// The mapping that an address of a process belongs to.
    pub fn user_mapping_for_pid_ip(&self, pid: u32, ip: u64) -> (mapping: Option<UserMapping<'_>>)
        requires
            self.wf(),
        ensures
            match (mapping, resolved(self@, pid, ip)) {
                (Some(mapping), Some(index)) => mapping@ == self@[index],
                (None, None) => true,
                _ => false,
            },
    {
        match self.resolve_mapping_index(pid, ip) {
            Some(index) => Some(self.mappings[index].user_mapping()),
            None => None,
        }
    }

    /// Whether a range would take room from a mapping of a file into a process.
    #[must_use]
    pub fn has_overlapping_user_mapping_for_pid(
        &self,
        pid: u32,
        start: u64,
        len: u64,
    ) -> (found: bool)
        ensures
            found == overlaps_user_file(self@, pid, start, len),
    {
        let end: u64 = start.saturating_add(len);
        let mut index: usize = 0;
        while index < self.mappings.len()
            invariant
                index <= self.mappings@.len(),
                end == if start + len > u64::MAX {
                    u64::MAX as int
                } else {
                    start + len
                },
                forall|m: int| 0 <= m < index ==> !user_overlap(#[trigger] self@[m], pid, start, len),
            decreases self.mappings@.len() - index,
        {
            let mapping = &self.mappings[index];
            assert(self@[index as int] == self.mappings@[index as int]@);
            if mapping.pid == pid && mapping.is_user_file_mapping() && mapping.start < end && start
                < mapping.end() {
                assert(user_overlap(self@[index as int], pid, start, len));
                return true;
            }
            index += 1;
        }
        false
    }

    /// Whether a process has mappings.
    #[must_use]
    pub fn has_mappings_for_pid(&self, pid: u32) -> (found: bool)
        requires
            self.wf(),
        ensures
            found == (some_of(self@, self@.len() as int, GLOBAL_PID) || some_of(
                self@,
                self@.len() as int,
                pid,
            )),
    {
        assert(self.pids_with_mappings@.contains(pid) <==> pid != GLOBAL_PID && some_of(
            self@,
            self@.len() as int,
            pid,
        ));
        self.has_global_mappings || self.pids_with_mappings.contains(pid)
    }

    /// Whether a process has mappings that may hold code.
    #[must_use]
    pub fn has_executable_mappings_for_pid(&self, pid: u32) -> (found: bool)
        requires
            self.wf(),
        ensures
            found == (some_executable_of(self@, self@.len() as int, GLOBAL_PID)
                || some_executable_of(self@, self@.len() as int, pid)),
    {
        assert(self.executable_pids@.contains(pid) <==> pid != GLOBAL_PID && some_executable_of(
            self@,
            self@.len() as int,
            pid,
        ));
        self.has_global_executable_mappings || self.executable_pids.contains(pid)
    }

    /// Whether an address of a process belongs to a mapping that is known not to hold code.
    #[must_use]
    pub fn is_known_non_executable(&self, pid: u32, ip: u64) -> (known: bool)
        requires
            self.wf(),
        ensures
            known == (resolved(self@, pid, ip) matches Some(index)
                && self@[index].is_known_non_executable()),
    {
        match self.resolve_mapping_index(pid, ip) {
            Some(index) => self.mappings[index].is_known_non_executable(),
            None => false,
        }
    }

    /// The index of a process: its mappings by their starts.
    pub fn indexed_mappings(&self, pid: u32) -> (entries: Vec<IndexedMapping>)
        requires
            self.wf(),
        ensures
            indexes(entries@, self@, pid, self@.len() as int),
    {
        match self.bucket_ids.get(pid as u64) {
            Some(bucket) => {
                assert(self.bucket_ids@.dom().contains(pid as u64));
                slice_to_vec(self.buckets[bucket as usize].as_slice())
            },
            None => {
                proof {
                    assert forall|m: int| 0 <= m < self@.len() implies (#[trigger] self@[m]).pid
                        != pid by {
                        assert(self.bucket_ids@.dom().contains(self.mappings@[m].pid as u64));
                    }
                }
                Vec::new()
            },
        }
    }
}

/// Whether a range would take room from a mapping of a file into a process.
pub open spec fn user_overlap(mapping: MappingModel, pid: u32, start: u64, len: u64) -> bool {
    let end = if start + len > u64::MAX {
        u64::MAX as int
    } else {
        start + len
    };
    mapping.pid == pid && mapping.is_user_file_mapping() && mapping.start < end && start
        < mapping.end()
}

/// Whether a range overlaps a mapped file of a process.
pub open spec fn overlaps_user_file(
    mappings: Seq<MappingModel>,
    pid: u32,
    start: u64,
    len: u64,
) -> bool {
    exists|m: int|
        0 <= m < mappings.len() && user_overlap(#[trigger] mappings[m], pid, start, len)
}

impl Default for MmapTable {
    fn default() -> (table: MmapTable)
        ensures
            table.wf(),
            table@ == Seq::<MappingModel>::empty(),
            table.source_ids() == Map::<SourceKeyModel, u64>::empty(),
    {
        MmapTable::new()
    }
}

// ---------------------------------------------------------------------------
// Laws
// ---------------------------------------------------------------------------

/// The addresses of a new mapping belong to it.
pub proof fn new_mapping_answers(mappings: Seq<MappingModel>, new_mapping: MappingModel, ip: u64)
    requires
        new_mapping.start <= ip < new_mapping.end(),
    ensures
        latest(with_mapping(mappings, new_mapping), new_mapping.pid, ip) == Some(
            with_mapping(mappings, new_mapping).len() - 1,
        ),
{
}

/// Whether two mappings say the same of an address.
pub open spec fn same_at(left: MappingModel, right: MappingModel, ip: u64) -> bool {
    &&& left.path == right.path
    &&& left.relative_address(ip) == right.relative_address(ip)
    &&& left.build_id == right.build_id
    &&& left.file_identity == right.file_identity
    &&& left.prot == right.prot
}

/// Whether moving the displaced mappings' offsets stays in range.
pub open spec fn offsets_fit(mappings: Seq<MappingModel>, new_mapping: MappingModel) -> bool {
    forall|m: int|
        0 <= m < mappings.len() && displaced(#[trigger] mappings[m], new_mapping) ==> mappings[m].pgoff
            + (new_mapping.end() - mappings[m].start) <= u64::MAX
}

/// Whether some item holds an address and says of it what a mapping says.
spec fn answered(items: Seq<MappingModel>, mapping: MappingModel, pid: u32, ip: u64) -> bool {
    exists|i: int|
        0 <= i < items.len() && (#[trigger] items[i]).holds(pid, ip) && same_at(
            items[i],
            mapping,
            ip,
        )
}

proof fn answer_survives(
    mappings: Seq<MappingModel>,
    new_mapping: MappingModel,
    count: int,
    m: int,
    pid: u32,
    ip: u64,
)
    requires
        0 <= m < count <= mappings.len(),
        mappings[m].holds(pid, ip),
        !new_mapping.holds(pid, ip),
        offsets_fit(mappings, new_mapping),
    ensures
        answered(
            kept(mappings, new_mapping, count) + remnants(mappings, new_mapping, count),
            mappings[m],
            pid,
            ip,
        ),
    decreases count,
{
    let n = count - 1;
    let last = mappings[n];
    let stayed0 = kept(mappings, new_mapping, n);
    let left0 = remnants(mappings, new_mapping, n);
    let stayed = kept(mappings, new_mapping, count);
    let left = remnants(mappings, new_mapping, count);
    let all = stayed + left;
    if m < n {
        answer_survives(mappings, new_mapping, n, m, pid, ip);
        let all0 = stayed0 + left0;
        let i = choose|i: int|
            0 <= i < all0.len() && (#[trigger] all0[i]).holds(pid, ip) && same_at(
                all0[i],
                mappings[m],
                ip,
            );
        if i < stayed0.len() {
            assert(all[i] == all0[i]);
        } else {
            assert(all[i + (stayed.len() - stayed0.len())] == all0[i]);
        }
    } else if displaced(last, new_mapping) {
        let before = part_before(last, new_mapping);
        let after = part_after(last, new_mapping);
        if ip < new_mapping.start {
            let at = stayed.len() + left0.len();
            assert(all[at as int] == before[0]);
        } else {
            let at = stayed.len() + left0.len() + before.len();
            assert(all[at as int] == after[0]);
        }
    } else {
        assert(all[stayed.len() - 1] == last);
    }
}

proof fn answer_has_origin(
    mappings: Seq<MappingModel>,
    new_mapping: MappingModel,
    count: int,
    i: int,
    pid: u32,
    ip: u64,
)
    requires
        0 <= count <= mappings.len(),
        offsets_fit(mappings, new_mapping),
        ({
            let all = kept(mappings, new_mapping, count) + remnants(mappings, new_mapping, count);
            0 <= i < all.len() && all[i].holds(pid, ip)
        }),
    ensures
        answered(
            mappings.subrange(0, count),
            (kept(mappings, new_mapping, count) + remnants(mappings, new_mapping, count))[i],
            pid,
            ip,
        ),
    decreases count,
{
    let stayed = kept(mappings, new_mapping, count);
    let left = remnants(mappings, new_mapping, count);
    let all = stayed + left;
    if count > 0 {
        let n = count - 1;
        let last = mappings[n];
        let stayed0 = kept(mappings, new_mapping, n);
        let left0 = remnants(mappings, new_mapping, n);
        let all0 = stayed0 + left0;
        let items = mappings.subrange(0, count);
        let earlier = if i < stayed0.len() {
            i
        } else if i < stayed.len() {
            -1
        } else if i - stayed.len() < left0.len() {
            stayed0.len() + (i - stayed.len())
        } else {
            -1
        };
        if earlier >= 0 {
            assert(all0[earlier] == all[i]);
            answer_has_origin(mappings, new_mapping, n, earlier, pid, ip);
            let items0 = mappings.subrange(0, n);
            let m = choose|m: int|
                0 <= m < items0.len() && (#[trigger] items0[m]).holds(pid, ip) && same_at(
                    items0[m],
                    all[i],
                    ip,
                );
            assert(items[m] == items0[m]);
        } else {
            assert(items[n] == last);
            if displaced(last, new_mapping) {
                let before = part_before(last, new_mapping);
                let after = part_after(last, new_mapping);
                if i - stayed.len() - left0.len() < before.len() {
                    assert(all[i] == before[0]);
                } else {
                    assert(all[i] == after[0]);
                }
            } else {
                assert(all[i] == last);
            }
            assert(items[n].holds(pid, ip) && same_at(items[n], all[i], ip));
        }
    }
}

/// A new mapping changes nothing for addresses outside it: each keeps its file and its place in
/// the file, and an address without a mapping stays without one.
pub proof fn other_addresses_stay(
    mappings: Seq<MappingModel>,
    new_mapping: MappingModel,
    pid: u32,
    ip: u64,
)
    requires
        ranges_apart(mappings),
        offsets_fit(mappings, new_mapping),
        !new_mapping.holds(pid, ip),
    ensures
        match (latest(mappings, pid, ip), latest(with_mapping(mappings, new_mapping), pid, ip)) {
            (Some(before), Some(after)) => same_at(
                mappings[before],
                with_mapping(mappings, new_mapping)[after],
                ip,
            ),
            (None, None) => true,
            _ => false,
        },
{
    let count = mappings.len() as int;
    let all = with_mapping(mappings, new_mapping);
    let old_parts = kept(mappings, new_mapping, count) + remnants(mappings, new_mapping, count);
    new_mapping_keeps_ranges_apart(mappings, new_mapping);
    latest_below_holds(mappings, count, pid, ip);
    latest_below_holds(all, all.len() as int, pid, ip);
    assert(mappings.subrange(0, count) =~= mappings);
    if let Some(before) = latest(mappings, pid, ip) {
        answer_survives(mappings, new_mapping, count, before, pid, ip);
        let i = choose|i: int|
            0 <= i < old_parts.len() && (#[trigger] old_parts[i]).holds(pid, ip) && same_at(
                old_parts[i],
                mappings[before],
                ip,
            );
        assert(all[i] == old_parts[i]);
        let after = latest(all, pid, ip)->Some_0;
        assert(after == i) by {
            if after != i {
                let (low, high) = if after < i {
                    (after, i)
                } else {
                    (i, after)
                };
                assert(!all[low].overlaps(all[high]));
            }
        }
    } else if let Some(after) = latest(all, pid, ip) {
        assert(all[after] == old_parts[after]);
        answer_has_origin(mappings, new_mapping, count, after, pid, ip);
    }
}

proof fn latest_in_parts(
    first: Seq<MappingModel>,
    second: Seq<MappingModel>,
    count: int,
    pid: u32,
    ip: u64,
)
    requires
        0 <= count <= second.len(),
    ensures
        latest_below(first + second, first.len() + count, pid, ip) == match latest_below(
            second,
            count,
            pid,
            ip,
        ) {
            Some(at) => Some(first.len() + at),
            None => latest_below(first, first.len() as int, pid, ip),
        },
    decreases count,
{
    if count > 0 {
        assert((first + second)[first.len() + count - 1] == second[count - 1]);
        latest_in_parts(first, second, count - 1, pid, ip);
    } else {
        latest_in_start(first, second, first.len() as int, pid, ip);
    }
}

proof fn latest_in_start(
    first: Seq<MappingModel>,
    second: Seq<MappingModel>,
    count: int,
    pid: u32,
    ip: u64,
)
    requires
        0 <= count <= first.len(),
    ensures
        latest_below(first + second, count, pid, ip) == latest_below(first, count, pid, ip),
    decreases count,
{
    if count > 0 {
        assert((first + second)[count - 1] == first[count - 1]);
        latest_in_start(first, second, count - 1, pid, ip);
    }
}

/// What mappings say of an address.
pub open spec fn answer(mappings: Seq<MappingModel>, pid: u32, ip: u64) -> Option<MappingModel> {
    match latest(mappings, pid, ip) {
        Some(at) => Some(mappings[at]),
        None => None,
    }
}

proof fn handed_down_answer(
    mappings: Seq<MappingModel>,
    parent: u32,
    child: u32,
    count: int,
    ip: u64,
)
    requires
        0 <= count <= mappings.len(),
    ensures
        ({
            let handed = handed_down(mappings, parent, child, count);
            match (
                latest_below(mappings, count, parent, ip),
                latest_below(handed, handed.len() as int, child, ip),
            ) {
                (Some(old_at), Some(new_at)) => 0 <= old_at < count && 0 <= new_at < handed.len()
                    && handed[new_at] == (MappingModel { pid: child, ..mappings[old_at] }),
                (None, None) => true,
                _ => false,
            }
        }),
    decreases count,
{
    if count > 0 {
        handed_down_answer(mappings, parent, child, count - 1, ip);
        if mappings[count - 1].pid == parent {
            let before = handed_down(mappings, parent, child, count - 1);
            let last = MappingModel { pid: child, ..mappings[count - 1] };
            assert(before.push(last) =~= before + seq![last]);
            latest_in_start(before, seq![last], before.len() as int, child, ip);
        }
    }
}

proof fn without_pid_answer(mappings: Seq<MappingModel>, gone: u32, count: int, pid: u32, ip: u64)
    requires
        0 <= count <= mappings.len(),
    ensures
        ({
            let stayed = without_pid(mappings, gone, count);
            let found = latest_below(stayed, stayed.len() as int, pid, ip);
            if pid == gone {
                found is None
            } else {
                match (latest_below(mappings, count, pid, ip), found) {
                    (Some(old_at), Some(new_at)) => 0 <= old_at < count && 0 <= new_at
                        < stayed.len() && stayed[new_at] == mappings[old_at],
                    (None, None) => true,
                    _ => false,
                }
            }
        }),
    decreases count,
{
    if count > 0 {
        without_pid_answer(mappings, gone, count - 1, pid, ip);
        if mappings[count - 1].pid != gone {
            let before = without_pid(mappings, gone, count - 1);
            let last = mappings[count - 1];
            assert(before.push(last) =~= before + seq![last]);
            latest_in_start(before, seq![last], before.len() as int, pid, ip);
        }
    }
}

proof fn handed_down_to_none_else(
    mappings: Seq<MappingModel>,
    parent: u32,
    child: u32,
    count: int,
    pid: u32,
    ip: u64,
)
    requires
        0 <= count <= mappings.len(),
        pid != child,
    ensures
        latest_below(
            handed_down(mappings, parent, child, count),
            handed_down(mappings, parent, child, count).len() as int,
            pid,
            ip,
        ) is None,
    decreases count,
{
    if count > 0 {
        handed_down_to_none_else(mappings, parent, child, count - 1, pid, ip);
        if mappings[count - 1].pid == parent {
            let before = handed_down(mappings, parent, child, count - 1);
            let last = MappingModel { pid: child, ..mappings[count - 1] };
            assert(before.push(last) =~= before + seq![last]);
            latest_in_start(before, seq![last], before.len() as int, pid, ip);
        }
    }
}

/// A child process that got the mappings of its parent finds what the parent finds at every
/// address, and nothing else; other processes find what they found.
pub proof fn child_answers_like_parent(
    mappings: Seq<MappingModel>,
    parent: u32,
    child: u32,
    pid: u32,
    ip: u64,
)
    requires
        parent != child,
    ensures
        ({
            let count = mappings.len() as int;
            let after = without_pid(mappings, child, count) + handed_down(
                mappings,
                parent,
                child,
                count,
            );
            &&& answer(after, child, ip) == match answer(mappings, parent, ip) {
                Some(mapping) => Some(MappingModel { pid: child, ..mapping }),
                None => None,
            }
            &&& pid != child ==> answer(after, pid, ip) == answer(mappings, pid, ip)
        }),
{
    let count = mappings.len() as int;
    let stayed = without_pid(mappings, child, count);
    let handed = handed_down(mappings, parent, child, count);
    latest_in_parts(stayed, handed, handed.len() as int, child, ip);
    handed_down_answer(mappings, parent, child, count, ip);
    without_pid_answer(mappings, child, count, child, ip);
    if pid != child {
        latest_in_parts(stayed, handed, handed.len() as int, pid, ip);
        without_pid_answer(mappings, child, count, pid, ip);
        handed_down_to_none_else(mappings, parent, child, count, pid, ip);
    }
}

/// The mappings of a table and the numbers of its symbol sources.
#[verifier::ext_equal]
pub struct TableModel {
    pub mappings: Seq<MappingModel>,
    pub sources: Map<SourceKeyModel, u64>,
}

impl TableModel {
    /// The table after a new mapping has taken its room.
    pub open spec fn with(self, mapping: MappingModel) -> TableModel {
        TableModel {
            mappings: with_mapping(self.mappings, mapping),
            sources: with_sources(
                self.sources,
                remnants(self.mappings, mapping, self.mappings.len() as int).push(mapping),
            ),
        }
    }

    /// The table after a child process got the mappings of its parent in place of its own.
    pub open spec fn inherited(self, parent: u32, child: u32) -> TableModel {
        let count = self.mappings.len() as int;
        if parent == child {
            self
        } else {
            TableModel {
                mappings: without_pid(self.mappings, child, count) + handed_down(
                    self.mappings,
                    parent,
                    child,
                    count,
                ),
                sources: with_sources(
                    self.sources,
                    handed_down(self.mappings, parent, child, count),
                ),
            }
        }
    }
}

impl MmapTable {
    /// The mappings of the table and the numbers of its symbol sources.
    pub open spec fn model(&self) -> TableModel {
        TableModel { mappings: self@, sources: self.source_ids() }
    }
}

impl MmapTable {
    /// The mappings of one process in a table never overlap.
    pub proof fn ranges_stay_apart(&self)
        requires
            self.wf(),
        ensures
            ranges_apart(self@),
    {
    }
}

/// Whether no mapping is one of the kernel, which all processes share.
pub open spec fn all_of_processes(mappings: Seq<MappingModel>) -> bool {
    forall|m: int| 0 <= m < mappings.len() ==> (#[trigger] mappings[m]).pid != GLOBAL_PID
}

/// Among mappings of processes, an address in a new mapping is resolved in that mapping; every
/// other address of every process is resolved as before, or not at all as before.
pub proof fn new_mapping_is_resolved(
    mappings: Seq<MappingModel>,
    new_mapping: MappingModel,
    pid: u32,
    ip: u64,
)
    requires
        ranges_apart(mappings),
        offsets_fit(mappings, new_mapping),
        all_of_processes(mappings),
        new_mapping.pid != GLOBAL_PID,
    ensures
        new_mapping.holds(pid, ip) ==> resolution(with_mapping(mappings, new_mapping), pid, ip)
            == Some(resolution_in(new_mapping, ip)),
        !new_mapping.holds(pid, ip) ==> match (
            resolution(mappings, pid, ip),
            resolution(with_mapping(mappings, new_mapping), pid, ip),
        ) {
            (Some(before), Some(after)) => {
                &&& before.path == after.path
                &&& before.relative_address == after.relative_address
                &&& before.build_id == after.build_id
                &&& before.file_identity == after.file_identity
            },
            (None, None) => true,
            _ => false,
        },
{
    let count = mappings.len() as int;
    latest_below_is(mappings, count, GLOBAL_PID, ip, None);
    other_addresses_stay(mappings, new_mapping, GLOBAL_PID, ip);
    if new_mapping.holds(pid, ip) {
        new_mapping_answers(mappings, new_mapping, ip);
    } else {
        other_addresses_stay(mappings, new_mapping, pid, ip);
    }
}

/// Whether an address lies in a range: from its start on, fewer than its length behind it. The
/// last address that there is lies in no range.
pub open spec fn covers(mapping: MappingModel, ip: u64) -> bool {
    mapping.start <= ip && ip - mapping.start < mapping.len && ip < u64::MAX
}

/// An address belongs to a mapping of its process or of every process that covers it, and to none
/// just where no such mapping covers it. Of the mappings of one process it is the last.
pub proof fn addresses_belong_to_covering_mappings(
    mappings: Seq<MappingModel>,
    pid: u32,
    ip: u64,
)
    ensures
        match resolved(mappings, pid, ip) {
            Some(at) => {
                &&& 0 <= at < mappings.len()
                &&& covers(mappings[at], ip)
                &&& mappings[at].pid == pid || mappings[at].pid == GLOBAL_PID
                &&& forall|m: int|
                    at < m < mappings.len() && (#[trigger] mappings[m]).pid == mappings[at].pid
                        ==> !covers(mappings[m], ip)
            },
            None => forall|m: int|
                0 <= m < mappings.len() && ((#[trigger] mappings[m]).pid == pid || mappings[m].pid
                    == GLOBAL_PID) ==> !covers(mappings[m], ip),
        },
{
    latest_is_last(mappings, mappings.len() as int, pid, ip);
    latest_is_last(mappings, mappings.len() as int, GLOBAL_PID, ip);
}

proof fn latest_is_last(mappings: Seq<MappingModel>, count: int, pid: u32, ip: u64)
    requires
        0 <= count <= mappings.len(),
    ensures
        match latest_below(mappings, count, pid, ip) {
            Some(at) => {
                &&& 0 <= at < count
                &&& mappings[at].pid == pid
                &&& covers(mappings[at], ip)
                &&& forall|m: int|
                    at < m < count && (#[trigger] mappings[m]).pid == pid ==> !covers(
                        mappings[m],
                        ip,
                    )
            },
            None => forall|m: int|
                0 <= m < count && (#[trigger] mappings[m]).pid == pid ==> !covers(mappings[m], ip),
        },
    decreases count,
{
    if count > 0 {
        latest_is_last(mappings, count - 1, pid, ip);
    }
}

/// Where mappings of one process lie apart, an address belongs to the mapping that starts nearest
/// in front of it, and to its own process where one of every process starts at the same place.
pub proof fn addresses_belong_to_the_nearest_start(
    mappings: Seq<MappingModel>,
    pid: u32,
    ip: u64,
    other: int,
)
    requires
        ranges_apart(mappings),
        0 <= other < mappings.len(),
        mappings[other].pid == pid || mappings[other].pid == GLOBAL_PID,
        covers(mappings[other], ip),
    ensures
        resolved(mappings, pid, ip) matches Some(at) && {
            &&& mappings[other].start <= mappings[at].start
            &&& mappings[other].start == mappings[at].start && mappings[other].pid == pid
                ==> mappings[at].pid == pid
        },
{
    latest_is_last(mappings, mappings.len() as int, pid, ip);
    latest_is_last(mappings, mappings.len() as int, GLOBAL_PID, ip);
    assert(mappings[other].end() > ip);
    if mappings[other].pid == pid {
        let own = latest(mappings, pid, ip)->Some_0;
        assert(mappings[own].overlaps(mappings[other]) && mappings[other].overlaps(mappings[own]));
        assert(own == other);
    }
    if mappings[other].pid == GLOBAL_PID {
        let global = latest(mappings, GLOBAL_PID, ip)->Some_0;
        assert(mappings[global].overlaps(mappings[other]) && mappings[other].overlaps(
            mappings[global],
        ));
        assert(global == other);
    }
}

/// As far as an address lies behind the start of its mapping, as far it lies behind the mapping's
/// place in the file, modulo the size of the address space. Addresses of kernel symbols stay.
pub proof fn addresses_are_counted_from_the_start(mapping: MappingModel, ip: u64)
    requires
        mapping.start <= ip,
    ensures
        mapping.pid != GLOBAL_PID || mapping.path.len() == 0 || mapping.path[0] != '['
            ==> mapping.relative_address(ip) as int == (mapping.pgoff + (ip - mapping.start))
            % 0x1_0000_0000_0000_0000,
        mapping.pid == GLOBAL_PID && mapping.path.len() > 0 && mapping.path[0] == '['
            ==> mapping.relative_address(ip) == ip,
{
    reveal_strlit("[");
    if begins_with(mapping.path, "["@) {
        beginning_is_being_in_front(mapping.path, "["@);
        let behind = choose|behind: Seq<char>| mapping.path == #[trigger] ("["@ + behind);
        assert(mapping.path[0] == ("["@ + behind)[0]);
    } else if mapping.path.len() > 0 && mapping.path[0] == '[' {
        let behind = mapping.path.subrange(1, mapping.path.len() as int);
        assert(mapping.path =~= "["@ + behind);
        beginning_is_being_in_front(mapping.path, "["@);
    }
}

/// The reference symbol of the kernel is what stands behind `[kernel.kallsyms]`.
pub proof fn kernel_symbols_stand_behind_the_prefix(mapping: MappingModel, symbol: Seq<char>)
    requires
        mapping.path == "[kernel.kallsyms]"@ + symbol,
    ensures
        mapping.kernel_relocation() == if symbol.len() == 0 {
            None
        } else {
            Some((symbol, mapping.pgoff))
        },
{
    let prefix = "[kernel.kallsyms]"@;
    beginning_is_being_in_front(mapping.path, prefix);
    assert(mapping.path == prefix + symbol);
    assert(mapping.path.subrange(prefix.len() as int, mapping.path.len() as int) =~= symbol);
}

/// Two ranges of addresses overlap just where some address lies in both.
pub proof fn overlapping_ranges_share_an_address(left: MappingModel, right: MappingModel)
    requires
        0 < left.len,
        left.start + left.len <= u64::MAX,
        0 < right.len,
        right.start + right.len <= u64::MAX,
    ensures
        left.overlaps(right) <==> exists|ip: u64| #[trigger] covers(left, ip) && covers(right, ip),
{
    let shared = if left.start < right.start {
        right.start
    } else {
        left.start
    };
    if left.overlaps(right) {
        assert(covers(left, shared) && covers(right, shared));
    }
}

/// The file name of a path is what stands behind its last separator.
pub proof fn file_names_stand_behind_the_last_separator(directory: Seq<char>, name: Seq<char>)
    requires
        is_free_of(name, '/'),
    ensures
        file_name(name) == name,
        file_name(directory.push('/') + name) == name,
{
    file_name_begins_behind(name, 0, name.len() as int);
    assert(file_name(name) =~= name);
    let path = directory.push('/') + name;
    assert(path[directory.len() as int] == '/');
    file_name_begins_behind(path, directory.len() as int + 1, path.len() as int);
    assert(file_name(path) =~= name);
}

proof fn file_name_begins_behind(path: Seq<char>, start: int, upto: int)
    requires
        0 <= start <= upto <= path.len(),
        start == 0 || path[start - 1] == '/',
        forall|i: int| start <= i < upto ==> #[trigger] path[i] != '/',
    ensures
        file_name_start(path, upto) == start,
    decreases upto - start,
{
    if upto > start {
        file_name_begins_behind(path, start, upto - 1);
    }
}

/// A path is that of a recording just where its file name is `perf.data`, alone or in front of a
/// point and whatever follows.
pub proof fn recordings_are_told_by_their_file_names(directory: Seq<char>, name: Seq<char>)
    requires
        is_free_of(name, '/'),
    ensures
        is_perf_data(directory.push('/') + name) <==> name == "perf.data"@ || exists|
            behind: Seq<char>,
        |
            name == #[trigger] ("perf.data."@ + behind),
        is_perf_data(name) <==> is_perf_data(directory.push('/') + name),
{
    file_names_stand_behind_the_last_separator(directory, name);
    beginning_is_being_in_front(name, "perf.data."@);
}

/// A child process loses the mappings that it had and gets those of its parent, in their order.
/// The mappings of others stay.
pub proof fn children_get_the_mappings_of_parents(
    mappings: Seq<MappingModel>,
    parent: u32,
    child: u32,
)
    requires
        parent != child,
    ensures
        without_pid(mappings, child, mappings.len() as int) == mappings.filter(
            |mapping: MappingModel| mapping.pid != child,
        ),
        handed_down(mappings, parent, child, mappings.len() as int) == mappings.filter(
            |mapping: MappingModel| mapping.pid == parent,
        ).map_values(|mapping: MappingModel| MappingModel { pid: child, ..mapping }),
{
    mappings_are_handed_down(mappings, parent, child, mappings.len() as int);
    assert(mappings.take(mappings.len() as int) =~= mappings);
}

proof fn mappings_are_handed_down(
    mappings: Seq<MappingModel>,
    parent: u32,
    child: u32,
    count: int,
)
    requires
        0 <= count <= mappings.len(),
    ensures
        without_pid(mappings, child, count) == mappings.take(count).filter(
            |mapping: MappingModel| mapping.pid != child,
        ),
        handed_down(mappings, parent, child, count) == mappings.take(count).filter(
            |mapping: MappingModel| mapping.pid == parent,
        ).map_values(|mapping: MappingModel| MappingModel { pid: child, ..mapping }),
    decreases count,
{
    reveal(Seq::filter);
    if count > 0 {
        mappings_are_handed_down(mappings, parent, child, count - 1);
        assert(mappings.take(count).drop_last() =~= mappings.take(count - 1));
        assert(mappings.take(count).last() == mappings[count - 1]);
        let given = |mapping: MappingModel| MappingModel { pid: child, ..mapping };
        let of_parent = mappings.take(count - 1).filter(
            |mapping: MappingModel| mapping.pid == parent,
        );
        assert(of_parent.push(mappings[count - 1]).map_values(given) =~= of_parent.map_values(
            given,
        ).push(given(mappings[count - 1])));
    } else {
        assert(mappings.take(count) =~= Seq::empty());
        assert(handed_down(mappings, parent, child, count) =~= mappings.take(count).filter(
            |mapping: MappingModel| mapping.pid == parent,
        ).map_values(|mapping: MappingModel| MappingModel { pid: child, ..mapping }));
    }
}

/// The mapped files are the mappings of single processes whose path begins with no bracket, in
/// their order.
pub proof fn mapped_files_are_listed_in_order(mappings: Seq<MappingModel>)
    ensures
        user_mappings_of(mappings, mappings.len() as int) == mappings.filter(
            |mapping: MappingModel|
                mapping.pid != GLOBAL_PID && !(mapping.path.len() > 0 && mapping.path[0] == '['),
        ),
{
    mapped_files_are_listed(mappings, mappings.len() as int);
    assert(mappings.take(mappings.len() as int) =~= mappings);
}

proof fn mapped_files_are_listed(mappings: Seq<MappingModel>, count: int)
    requires
        0 <= count <= mappings.len(),
    ensures
        user_mappings_of(mappings, count) == mappings.take(count).filter(
            |mapping: MappingModel|
                mapping.pid != GLOBAL_PID && !(mapping.path.len() > 0 && mapping.path[0] == '['),
        ),
    decreases count,
{
    reveal(Seq::filter);
    if count > 0 {
        mapped_files_are_listed(mappings, count - 1);
        assert(mappings.take(count).drop_last() =~= mappings.take(count - 1));
        let path = mappings[count - 1].path;
        reveal_strlit("[");
        if path.len() > 0 && path[0] == '[' {
            assert(path =~= "["@ + path.subrange(1, path.len() as int));
        }
        beginning_is_being_in_front(path, "["@);
    } else {
        assert(mappings.take(count) =~= Seq::empty());
    }
}

/// Sources that have a number keep it, and a new source gets the number of those seen before it.
pub proof fn sources_are_numbered_as_they_come(
    ids: Map<SourceKeyModel, u64>,
    key: SourceKeyModel,
    other: SourceKeyModel,
)
    requires
        ids.dom().len() <= u64::MAX,
    ensures
        ids.dom().contains(other) ==> with_source(ids, key).dom().contains(other) && with_source(
            ids,
            key,
        )[other] == ids[other],
        with_source(ids, key).dom().contains(key),
        !ids.dom().contains(key) ==> with_source(ids, key)[key] == ids.dom().len(),
        other != key && !ids.dom().contains(other) ==> !with_source(ids, key).dom().contains(other),
{
}

} // verus!
