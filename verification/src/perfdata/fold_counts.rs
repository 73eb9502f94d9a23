//! Counts of rendered stacks, and the folded lines that they make.

use vstd::prelude::*;
use vstd::seq_lib::{commutative_foldl, lemma_fold_left_permutation};
use vstd::slice::{slice_subrange, slice_to_vec};
use vstd::utf8::{encode_utf8, valid_utf8};

use crate::sorting::{
    bytes_in_order, bytes_le, bytes_order, bytes_transitive, same_bytes, same_items, sort, sorted,
    Ranked,
};
use crate::tables::IdMap;
use crate::text::{decimal, push_decimal, text_from_utf8, utf8_error};

use crate::totals::{count_within_total, total, total_with_count};

verus! {

broadcast use vstd::std_specs::control_flow::group_control_flow_axioms;

/// Hashes a rendered stack with `rustc_hash::FxHasher`. The hash depends on the width of the
/// machine's words, so nothing is stated of it: whatever it is, the counts are the same.
#[verifier::external_body]
pub(crate) fn fx_hash(rendered: &[u8]) -> (hash: u64)
{
    let mut hasher = rustc_hash::FxHasher::default();
    std::hash::Hasher::write(&mut hasher, rendered);
    std::hash::Hasher::finish(&hasher)
}

/// Hashes a rendered stack; the hash only spreads the entries.
pub fn fold_count_hash(rendered: &[u8]) -> (hash: u64) {
    fx_hash(rendered)
}

// ---------------------------------------------------------------------------
// Counts of lines
// ---------------------------------------------------------------------------

/// A rendered stack with its count.
#[derive(Clone, Debug)]
pub struct FoldLine {
    pub bytes: Vec<u8>,
    pub count: u64,
}

/// A counted line: the bytes of a rendered stack and its count.
pub type LineModel = (Seq<u8>, u64);

impl View for FoldLine {
    type V = LineModel;

    open spec fn view(&self) -> LineModel {
        (self.bytes@, self.count)
    }
}

impl Ranked for FoldLine {
    open spec fn before(&self, other: &Self) -> bool {
        bytes_le(self.bytes@, other.bytes@)
    }

    fn in_order(&self, other: &Self) -> (ordered: bool) {
        bytes_in_order(self.bytes.as_slice(), other.bytes.as_slice())
    }

    proof fn order_is_total(left: &Self, right: &Self) {
        bytes_order(left.bytes@, right.bytes@);
    }

    proof fn order_is_transitive(a: &Self, b: &Self, c: &Self) {
        bytes_transitive(a.bytes@, b.bytes@, c.bytes@);
    }
}

/// A count, or the largest one where it is larger.
pub open spec fn capped(count: int) -> u64 {
    if count > u64::MAX {
        u64::MAX
    } else {
        count as u64
    }
}

/// What a line adds to the count of some bytes.
pub open spec fn share(line: LineModel, bytes: Seq<u8>) -> int {
    if line.0 == bytes {
        line.1 as int
    } else {
        0
    }
}

/// The count of some bytes in the first `count` lines together.
pub open spec fn total_in(lines: Seq<LineModel>, bytes: Seq<u8>, count: int) -> int
    decreases count,
{
    if count <= 0 {
        0
    } else {
        total_in(lines, bytes, count - 1) + share(lines[count - 1], bytes)
    }
}

/// Whether some line has some bytes.
pub open spec fn has_line(lines: Seq<LineModel>, bytes: Seq<u8>) -> bool {
    exists|i: int| 0 <= i < lines.len() && (#[trigger] lines[i]).0 == bytes
}

/// The count of each different line, up to the largest count there is.
pub open spec fn totals(lines: Seq<LineModel>) -> Map<Seq<u8>, u64> {
    Map::new(
        |bytes: Seq<u8>| has_line(lines, bytes),
        |bytes: Seq<u8>| capped(total_in(lines, bytes, lines.len() as int)),
    )
}

/// Counts with `count` added to that of one line, up to the largest count there is.
pub open spec fn with_line(counts: Map<Seq<u8>, u64>, bytes: Seq<u8>, count: u64) -> Map<
    Seq<u8>,
    u64,
> {
    let before = if counts.contains_key(bytes) {
        counts[bytes] as int
    } else {
        0
    };
    counts.insert(bytes, capped(before + count))
}

proof fn total_is_natural(lines: Seq<LineModel>, bytes: Seq<u8>, count: int)
    ensures
        total_in(lines, bytes, count) >= 0,
    decreases count,
{
    if count > 0 {
        total_is_natural(lines, bytes, count - 1);
    }
}

proof fn total_of_prefix(lines: Seq<LineModel>, more: Seq<LineModel>, bytes: Seq<u8>, count: int)
    requires
        0 <= count <= lines.len(),
        count <= more.len(),
        forall|i: int| 0 <= i < count ==> #[trigger] lines[i] == more[i],
    ensures
        total_in(lines, bytes, count) == total_in(more, bytes, count),
    decreases count,
{
    if count > 0 {
        total_of_prefix(lines, more, bytes, count - 1);
    }
}

/// Without a line of some bytes their count is nothing.
proof fn total_without_line(lines: Seq<LineModel>, bytes: Seq<u8>, count: int)
    requires
        0 <= count <= lines.len(),
        forall|i: int| 0 <= i < count ==> (#[trigger] lines[i]).0 != bytes,
    ensures
        total_in(lines, bytes, count) == 0,
    decreases count,
{
    if count > 0 {
        total_without_line(lines, bytes, count - 1);
    }
}

/// One more line adds its count.
proof fn totals_of_push(lines: Seq<LineModel>, line: LineModel)
    ensures
        totals(lines.push(line)) == with_line(totals(lines), line.0, line.1),
{
    let more = lines.push(line);
    let count = lines.len() as int;
    assert forall|bytes: Seq<u8>| has_line(more, bytes) <==> has_line(lines, bytes) || bytes
        == line.0 by {
        if has_line(lines, bytes) {
            let i = choose|i: int| 0 <= i < lines.len() && (#[trigger] lines[i]).0 == bytes;
            assert(more[i].0 == bytes);
        }
        if bytes == line.0 {
            assert(more[count].0 == bytes);
        }
        if has_line(more, bytes) {
            let i = choose|i: int| 0 <= i < more.len() && (#[trigger] more[i]).0 == bytes;
            if i < count {
                assert(lines[i].0 == bytes);
            }
        }
    }
    assert forall|bytes: Seq<u8>| total_in(more, bytes, count + 1) == total_in(lines, bytes, count)
        + share(line, bytes) by {
        total_of_prefix(lines, more, bytes, count);
    }
    assert forall|bytes: Seq<u8>| !has_line(lines, bytes) implies total_in(lines, bytes, count)
        == 0 by {
        total_without_line(lines, bytes, count);
    }
    total_is_natural(lines, line.0, count);
    assert(totals(more) =~= with_line(totals(lines), line.0, line.1));
}

proof fn total_of_update(
    lines: Seq<LineModel>,
    index: int,
    line: LineModel,
    bytes: Seq<u8>,
    count: int,
)
    requires
        0 <= index < lines.len(),
        0 <= count <= lines.len(),
    ensures
        total_in(lines.update(index, line), bytes, count) == total_in(lines, bytes, count) + if index
            < count {
            share(line, bytes) - share(lines[index], bytes)
        } else {
            0
        },
    decreases count,
{
    if count > 0 {
        total_of_update(lines, index, line, bytes, count - 1);
    }
}

/// A larger count in a line adds the difference.
proof fn totals_of_update(lines: Seq<LineModel>, index: int, count: u64)
    requires
        0 <= index < lines.len(),
    ensures
        totals(lines.update(index, (lines[index].0, capped(lines[index].1 + count)))) == with_line(
            totals(lines),
            lines[index].0,
            count,
        ),
{
    let (bytes, before) = lines[index];
    let line = (bytes, capped(before + count));
    let more = lines.update(index, line);
    let len = lines.len() as int;
    assert forall|b: Seq<u8>| has_line(more, b) <==> has_line(lines, b) by {
        if has_line(lines, b) {
            let i = choose|i: int| 0 <= i < lines.len() && (#[trigger] lines[i]).0 == b;
            assert(more[i].0 == b);
        }
        if has_line(more, b) {
            let i = choose|i: int| 0 <= i < more.len() && (#[trigger] more[i]).0 == b;
            assert(lines[i].0 == b);
        }
    }
    assert(has_line(lines, bytes));
    assert forall|b: Seq<u8>| total_in(more, b, len) == total_in(lines, b, len) + share(line, b)
        - share(lines[index], b) by {
        total_of_update(lines, index, line, b, len);
    }
    total_of_update(lines, index, (bytes, 0), bytes, len);
    total_is_natural(lines.update(index, (bytes, 0)), bytes, len);
    assert(totals(more) =~= with_line(totals(lines), bytes, count));
}

// ---------------------------------------------------------------------------
// Lines in order
// ---------------------------------------------------------------------------

/// Whether bytes come before other bytes.
pub open spec fn bytes_lt(left: Seq<u8>, right: Seq<u8>) -> bool {
    bytes_le(left, right) && left != right
}

/// Whether lines are all counted lines, each once, in byte order.
pub open spec fn lists_lines(lines: Seq<LineModel>, counts: Map<Seq<u8>, u64>) -> bool {
    &&& forall|i: int, j: int|
        #![trigger lines[i], lines[j]]
        0 <= i < j < lines.len() ==> bytes_lt(lines[i].0, lines[j].0)
    &&& forall|line: LineModel| #[trigger]
        lines.contains(line) <==> counts.contains_key(line.0) && counts[line.0] == line.1
}

/// Counted lines have only one order.
pub proof fn line_order_is_unique(
    left: Seq<LineModel>,
    right: Seq<LineModel>,
    counts: Map<Seq<u8>, u64>,
)
    requires
        lists_lines(left, counts),
        lists_lines(right, counts),
    ensures
        left == right,
{
    same_prefix(left, right, counts, 0);
}

proof fn same_prefix(
    left: Seq<LineModel>,
    right: Seq<LineModel>,
    counts: Map<Seq<u8>, u64>,
    count: int,
)
    requires
        lists_lines(left, counts),
        lists_lines(right, counts),
        0 <= count <= left.len(),
        count <= right.len(),
        forall|i: int| 0 <= i < count ==> #[trigger] left[i] == right[i],
    ensures
        left == right,
    decreases left.len() - count,
{
    if count == left.len() {
        if count < right.len() {
            assert(right.contains(right[count]));
            assert(left.contains(right[count]));
            let i = choose|i: int| 0 <= i < left.len() && left[i] == right[count];
            assert(right[i] == right[count]);
            assert(bytes_lt(right[i].0, right[count].0));
        }
        assert(left =~= right);
    } else {
        assert(left.contains(left[count]));
        assert(right.contains(left[count]));
        let j = choose|j: int| 0 <= j < right.len() && right[j] == left[count];
        if j < count {
            assert(left[j] == left[count]);
            assert(bytes_lt(left[j].0, left[count].0));
        }
        assert(right.contains(right[count]));
        assert(left.contains(right[count]));
        let i = choose|i: int| 0 <= i < left.len() && left[i] == right[count];
        if i < count {
            assert(right[i] == right[count]);
            assert(bytes_lt(right[i].0, right[count].0));
        }
        if j > count && i > count {
            assert(bytes_lt(right[count].0, right[j].0));
            assert(bytes_lt(left[count].0, left[i].0));
            bytes_order(left[count].0, right[count].0);
        }
        same_prefix(left, right, counts, count + 1);
    }
}

/// The views of lines.
pub open spec fn line_views(lines: Seq<FoldLine>) -> Seq<LineModel> {
    crate::text::views(lines)
}

/// Lines in another order have the same counts.
proof fn totals_of_permutation(left: Seq<FoldLine>, right: Seq<FoldLine>)
    requires
        left.to_multiset() == right.to_multiset(),
    ensures
        totals(line_views(left)) == totals(line_views(right)),
{
    same_items(left, right);
    let a = line_views(left);
    let b = line_views(right);
    assert forall|bytes: Seq<u8>| has_line(a, bytes) <==> has_line(b, bytes) by {
        if has_line(a, bytes) {
            let i = choose|i: int| 0 <= i < a.len() && (#[trigger] a[i]).0 == bytes;
            assert(left.contains(left[i]));
            let j = choose|j: int| 0 <= j < right.len() && right[j] == left[i];
            assert(b[j].0 == bytes);
        }
        if has_line(b, bytes) {
            let i = choose|i: int| 0 <= i < b.len() && (#[trigger] b[i]).0 == bytes;
            assert(right.contains(right[i]));
            let j = choose|j: int| 0 <= j < left.len() && left[j] == right[i];
            assert(a[j].0 == bytes);
        }
    }
    assert forall|bytes: Seq<u8>| total_in(a, bytes, a.len() as int) == total_in(
        b,
        bytes,
        b.len() as int,
    ) by {
        let f = |sum: int, line: FoldLine| sum + share(line@, bytes);
        assert(commutative_foldl(f));
        lemma_fold_left_permutation(left, right, f, 0);
        total_is_fold(left, bytes);
        total_is_fold(right, bytes);
    }
    assert(totals(a) =~= totals(b));
}

proof fn total_is_fold(lines: Seq<FoldLine>, bytes: Seq<u8>)
    ensures
        total_in(line_views(lines), bytes, lines.len() as int) == lines.fold_left(
            0,
            |sum: int, line: FoldLine| sum + share(line@, bytes),
        ),
    decreases lines.len(),
{
    if lines.len() > 0 {
        let front = lines.drop_last();
        total_is_fold(front, bytes);
        total_of_prefix(
            line_views(front),
            line_views(lines),
            bytes,
            lines.len() - 1,
        );
    }
}

/// Lines in order, each different one once.
fn merge_lines(lines: Vec<FoldLine>) -> (merged: Vec<FoldLine>)
    requires
        sorted(lines@),
    ensures
        lists_lines(line_views(merged@), totals(line_views(lines@))),
{
    let mut merged: Vec<FoldLine> = Vec::new();
    let ghost all = line_views(lines@);
    let total: usize = lines.len();
    let mut index: usize = 0;
    assert(line_views(merged@) =~= Seq::empty());
    assert(all.subrange(0, 0) =~= Seq::empty());
    assert(totals(Seq::<LineModel>::empty()) =~= Map::empty());
    while index < lines.len()
        invariant
            index <= lines@.len(),
            sorted(lines@),
            all == line_views(lines@),
            lists_lines(line_views(merged@), totals(all.subrange(0, index as int))),
            merged@.len() > 0 ==> index > 0 && merged@.last().bytes@ == lines@[index - 1].bytes@,
            index > 0 ==> merged@.len() > 0,
        decreases lines@.len() - index,
    {
        let line = &lines[index];
        let ghost before = line_views(merged@);
        let ghost counts = totals(all.subrange(0, index as int));
        let ghost seen = all.subrange(0, index as int);
        proof {
            assert(all.subrange(0, index + 1) =~= seen.push(line@));
            totals_of_push(seen, line@);
        }
        let last: usize = merged.len();
        if last > 0 && same_bytes(merged[last - 1].bytes.as_slice(), line.bytes.as_slice()) {
            let joined = FoldLine {
                bytes: slice_to_vec(line.bytes.as_slice()),
                count: merged[last - 1].count.saturating_add(line.count),
            };
            proof {
                assert(before.contains(before[last - 1]));
            }
            merged.set(last - 1, joined);
            proof {
                let now = line_views(merged@);
                assert(now =~= before.update(last - 1, joined@));
                lists_after_update(before, counts, joined@, line.count);
            }
        } else {
            proof {
                if index > 0 {
                    assert(lines@[index - 1].before(&lines@[index as int]));
                }
            }
            let added = FoldLine {
                bytes: slice_to_vec(line.bytes.as_slice()),
                count: line.count,
            };
            merged.push(added);
            proof {
                let now = line_views(merged@);
                assert(now =~= before.push(added@));
                lists_after_push(before, counts, added@);
            }
        }
        index += 1;
    }
    assert(all.subrange(0, index as int) =~= all);
    merged
}

proof fn lists_after_update(
    lines: Seq<LineModel>,
    counts: Map<Seq<u8>, u64>,
    line: LineModel,
    count: u64,
)
    requires
        lists_lines(lines, counts),
        lines.len() > 0,
        line.0 == lines.last().0,
        line.1 == capped(lines.last().1 + count),
    ensures
        lists_lines(lines.update(lines.len() - 1, line), with_line(counts, line.0, count)),
{
    let last = lines.len() - 1;
    let now = lines.update(last, line);
    let new_counts = with_line(counts, line.0, count);
    assert(lines.contains(lines[last]));
    assert forall|wanted: LineModel| #[trigger]
        now.contains(wanted) <==> new_counts.contains_key(wanted.0) && new_counts[wanted.0]
            == wanted.1 by {
        if now.contains(wanted) {
            let i = choose|i: int| 0 <= i < now.len() && now[i] == wanted;
            if i < last {
                assert(lines[i] == wanted);
                assert(lines.contains(wanted));
                assert(bytes_lt(lines[i].0, lines[last].0));
            }
        }
        if new_counts.contains_key(wanted.0) && new_counts[wanted.0] == wanted.1 {
            if wanted.0 == line.0 {
                assert(now[last] == wanted);
            } else {
                assert(lines.contains(wanted));
                let i = choose|i: int| 0 <= i < lines.len() && lines[i] == wanted;
                assert(now[i] == wanted);
            }
        }
    }
}

proof fn lists_after_push(lines: Seq<LineModel>, counts: Map<Seq<u8>, u64>, line: LineModel)
    requires
        lists_lines(lines, counts),
        lines.len() > 0 ==> bytes_lt(lines.last().0, line.0),
    ensures
        lists_lines(lines.push(line), with_line(counts, line.0, line.1)),
{
    let count = lines.len() as int;
    let now = lines.push(line);
    assert forall|i: int| 0 <= i < count implies bytes_lt((#[trigger] lines[i]).0, line.0) by {
        if i < count - 1 {
            assert(bytes_lt(lines[i].0, lines[count - 1].0));
            bytes_transitive(lines[i].0, lines[count - 1].0, line.0);
            bytes_order(lines[i].0, lines[count - 1].0);
            bytes_order(lines[count - 1].0, line.0);
        }
    }
    if counts.contains_key(line.0) {
        let known = (line.0, counts[line.0]);
        assert(lines.contains(known));
        let i = choose|i: int| 0 <= i < lines.len() && lines[i] == known;
        assert(bytes_lt(lines[i].0, line.0));
    }
    let new_counts = with_line(counts, line.0, line.1);
    assert forall|wanted: LineModel| #[trigger]
        now.contains(wanted) <==> new_counts.contains_key(wanted.0) && new_counts[wanted.0]
            == wanted.1 by {
        if now.contains(wanted) {
            let i = choose|i: int| 0 <= i < now.len() && now[i] == wanted;
            if i < count {
                assert(lines[i] == wanted);
                assert(lines.contains(wanted));
            }
        }
        if new_counts.contains_key(wanted.0) && new_counts[wanted.0] == wanted.1 {
            if wanted.0 == line.0 {
                assert(now[count] == wanted);
            } else {
                assert(lines.contains(wanted));
                let i = choose|i: int| 0 <= i < lines.len() && lines[i] == wanted;
                assert(now[i] == wanted);
            }
        }
    }
}

// ---------------------------------------------------------------------------
// Counting
// ---------------------------------------------------------------------------

/// Where a counted line stands in the storage, and its count.
#[derive(Clone, Copy, Debug, Eq, PartialEq)]
pub struct FoldCountEntry {
    pub offset: usize,
    pub len: usize,
    pub count: u64,
}

/// Counts of rendered stacks.
pub struct FoldCounts {
    storage: Vec<u8>,
    pub entries: Vec<FoldCountEntry>,
    by_hash: IdMap,
    buckets: Vec<Vec<usize>>,
    hashes: Ghost<Seq<u64>>,
    bucket_hashes: Ghost<Seq<u64>>,
}

/// The line of an entry.
spec fn entry_line(storage: Seq<u8>, entry: FoldCountEntry) -> LineModel {
    (storage.subrange(entry.offset as int, entry.offset + entry.len), entry.count)
}

impl View for FoldCounts {
    type V = Seq<LineModel>;

    closed spec fn view(&self) -> Seq<LineModel> {
        Seq::new(self.entries@.len(), |i: int| entry_line(self.storage@, self.entries@[i]))
    }
}

impl FoldCounts {
    /// The hash that each entry was counted under.
    pub closed spec fn hashes(&self) -> Seq<u64> {
        self.hashes@
    }

    /// The entry of a line that was counted under a hash.
    pub open spec fn is_entry(&self, id: int, hash: u64, rendered: Seq<u8>) -> bool {
        0 <= id < self@.len() && self.hashes()[id] == hash && self@[id].0 == rendered
    }

    spec fn in_bucket(&self, id: int, bucket: int) -> bool {
        exists|k: int|
            0 <= k < self.buckets@[bucket]@.len() && #[trigger] self.buckets@[bucket]@[k] == id
    }

    /// Whether all entries lie in the storage, each in the bucket of its hash only, and no line
    /// has two entries under one hash.
    pub closed spec fn wf(&self) -> bool {
        &&& self.hashes@.len() == self.entries@.len()
        &&& self.bucket_hashes@.len() == self.buckets@.len()
        &&& self.buckets@.len() == self.buckets.len()
        &&& forall|i: int|
            0 <= i < self.entries@.len() ==> (#[trigger] self.entries@[i]).offset
                + self.entries@[i].len <= self.storage@.len()
        &&& forall|hash: u64| #[trigger]
            self.by_hash@.contains_key(hash) ==> self.by_hash@[hash] < self.buckets@.len()
                && self.bucket_hashes@[self.by_hash@[hash] as int] == hash
        &&& forall|bucket: int, k: int|
            0 <= bucket < self.buckets@.len() && 0 <= k < self.buckets@[bucket]@.len() ==> {
                let id = #[trigger] self.buckets@[bucket]@[k];
                id < self.entries@.len() && self.hashes@[id as int] == self.bucket_hashes@[bucket]
            }
        &&& forall|i: int|
            0 <= i < self.entries@.len() ==> self.by_hash@.contains_key(#[trigger] self.hashes@[i])
                && self.in_bucket(i, self.by_hash@[self.hashes@[i]] as int)
        &&& forall|i: int, j: int|
            #![trigger self.entries@[i], self.entries@[j]]
            0 <= i < j < self.entries@.len() && self.hashes@[i] == self.hashes@[j]
                ==> entry_line(self.storage@, self.entries@[i]).0 != entry_line(
                self.storage@,
                self.entries@[j],
            ).0
    }

    /// No counts.
    #[must_use]
    pub fn new() -> (counts: FoldCounts)
        ensures
            counts.wf(),
            counts@ == Seq::<LineModel>::empty(),
            totals(counts@) == Map::<Seq<u8>, u64>::empty(),
    {
        let counts = FoldCounts {
            storage: Vec::new(),
            entries: Vec::new(),
            by_hash: IdMap::new(),
            buckets: Vec::new(),
            hashes: Ghost(Seq::empty()),
            bucket_hashes: Ghost(Seq::empty()),
        };
        assert(counts@ =~= Seq::empty());
        assert(totals(counts@) =~= Map::empty());
        counts
    }

    /// The bytes of an entry.
    #[must_use]
    pub fn entry_bytes(&self, id: usize) -> (bytes: &[u8])
        requires
            self.wf(),
            id < self@.len(),
        ensures
            bytes@ == self@[id as int].0,
    {
        let entry = self.entries[id];
        let total: usize = self.storage.len();
        slice_subrange(self.storage.as_slice(), entry.offset, entry.offset + entry.len)
    }

    /// Finds the entry of a line that was counted under a hash.
    #[must_use]
    pub fn find_entry_id(&self, hash: u64, rendered: &[u8]) -> (id: Option<usize>)
        requires
            self.wf(),
        ensures
            match id {
                Some(id) => self.is_entry(id as int, hash, rendered@),
                None => forall|id: int| !#[trigger] self.is_entry(id, hash, rendered@),
            },
    {
        let bucket: usize = match self.by_hash.get(hash) {
            Some(bucket) => bucket as usize,
            None => {
                assert forall|id: int| !#[trigger] self.is_entry(id, hash, rendered@) by {
                    if self.is_entry(id, hash, rendered@) {
                        assert(self.by_hash@.contains_key(self.hashes@[id]));
                    }
                }
                return None;
            },
        };
        assert(self.by_hash@.contains_key(hash));
        let mut k: usize = 0;
        while k < self.buckets[bucket].len()
            invariant
                self.wf(),
                self.by_hash@.contains_key(hash),
                bucket == self.by_hash@[hash],
                bucket < self.buckets@.len(),
                k <= self.buckets@[bucket as int]@.len(),
                forall|j: int|
                    0 <= j < k ==> self@[#[trigger] self.buckets@[bucket as int]@[j] as int].0
                        != rendered@,
            decreases self.buckets@[bucket as int]@.len() - k,
        {
            let id: usize = self.buckets[bucket][k];
            assert(id == self.buckets@[bucket as int]@[k as int]);
            if same_bytes(self.entry_bytes(id), rendered) {
                return Some(id);
            }
            k += 1;
        }
        assert forall|id: int| !#[trigger] self.is_entry(id, hash, rendered@) by {
            if self.is_entry(id, hash, rendered@) {
                assert(self.by_hash@.contains_key(self.hashes@[id]));
                assert(self.in_bucket(id, bucket as int));
            }
        }
        None
    }

    /// Reserves room for the entries of a first round.
    pub fn reserve_first_drain(&mut self, additional_entries: usize)
        requires
            old(self).wf(),
        ensures
            final(self).wf(),
            final(self)@ == old(self)@,
            final(self).hashes() == old(self).hashes(),
    {
        if self.entries.len() == 0 {
            let ghost before = *self;
            self.entries.reserve(additional_entries);
            assert(self@ =~= before@);
        }
    }

    /// Adds a count to that of a rendered stack.
    pub fn add_rendered(&mut self, rendered: &str, count: u64)
        requires
            old(self).wf(),
        ensures
            final(self).wf(),
            totals(final(self)@) == with_line(totals(old(self)@), encode_utf8(rendered@), count),
    {
        let bytes = rendered.as_bytes();
        let hash: u64 = fold_count_hash(bytes);
        self.add_rendered_with_hash(bytes, count, hash);
    }

    /// Adds a count to that of a rendered stack with a given hash. A stack that was counted
    /// under the hash keeps its entry; another gets a new one.
    pub fn add_rendered_with_hash(&mut self, rendered: &[u8], count: u64, hash: u64)
        requires
            old(self).wf(),
        ensures
            final(self).wf(),
            totals(final(self)@) == with_line(totals(old(self)@), rendered@, count),
            (forall|id: int| !#[trigger] old(self).is_entry(id, hash, rendered@)) ==> final(self)@
                == old(self)@.push((rendered@, count)) && final(self).hashes() == old(
                self,
            ).hashes().push(hash),
            forall|id: int| #[trigger]
                old(self).is_entry(id, hash, rendered@) ==> final(self)@ == old(self)@.update(
                    id,
                    (rendered@, capped(old(self)@[id].1 + count)),
                ) && final(self).hashes() == old(self).hashes(),
    {
        let ghost before = *self;
        match self.find_entry_id(hash, rendered) {
            Some(id) => {
                let old_entry = self.entries[id];
                let entry = FoldCountEntry {
                    count: old_entry.count.saturating_add(count),
                    ..old_entry
                };
                self.entries.set(id, entry);
                proof {
                    let line = (rendered@, capped(before@[id as int].1 + count));
                    assert(self@ =~= before@.update(id as int, line));
                    totals_of_update(before@, id as int, count);
                    assert forall|i: int| 0 <= i < self.entries@.len() implies self.in_bucket(
                        i,
                        self.by_hash@[#[trigger] self.hashes@[i]] as int,
                    ) by {
                        let b = before.by_hash@[before.hashes@[i]] as int;
                        assert(before.by_hash@.contains_key(before.hashes@[i]));
                        assert(before.in_bucket(i, b));
                        let k = choose|k: int|
                            0 <= k < before.buckets@[b]@.len()
                                && #[trigger] before.buckets@[b]@[k] == i;
                        assert(self.buckets@[b]@[k] == i);
                    }
                    assert forall|i: int, j: int|
                        #![trigger self.entries@[i], self.entries@[j]]
                        0 <= i < j < self.entries@.len() && self.hashes@[i]
                            == self.hashes@[j] implies entry_line(
                        self.storage@,
                        self.entries@[i],
                    ).0 != entry_line(self.storage@, self.entries@[j]).0 by {
                        let a = before.entries@[i];
                        let b = before.entries@[j];
                        assert(entry_line(self.storage@, self.entries@[i]).0 == entry_line(
                            before.storage@,
                            a,
                        ).0);
                        assert(entry_line(self.storage@, self.entries@[j]).0 == entry_line(
                            before.storage@,
                            b,
                        ).0);
                    }
                    assert forall|other: int| #[trigger]
                        before.is_entry(other, hash, rendered@) implies other == id by {
                        let a = before.entries@[other];
                        let b = before.entries@[id as int];
                        assert(before.is_entry(id as int, hash, rendered@));
                    }
                }
            },
            None => {
                self.push_entry(rendered, count, hash);
                proof {
                    totals_of_push(before@, (rendered@, count));
                }
            },
        }
    }

    fn push_entry(&mut self, rendered: &[u8], count: u64, hash: u64)
        requires
            old(self).wf(),
            forall|id: int| !#[trigger] old(self).is_entry(id, hash, rendered@),
        ensures
            final(self).wf(),
            final(self)@ == old(self)@.push((rendered@, count)),
            final(self).hashes() == old(self).hashes().push(hash),
    {
        let ghost before = *self;
        let offset: usize = self.storage.len();
        self.storage.extend_from_slice(rendered);
        let id: usize = self.entries.len();
        let end: usize = self.storage.len();
        self.entries.push(FoldCountEntry { offset, len: rendered.len(), count });
        let bucket: usize = match self.by_hash.get(hash) {
            Some(bucket) => {
                assert(before.by_hash@.contains_key(hash));
                bucket as usize
            },
            None => {
                let bucket: usize = self.buckets.len();
                self.by_hash.insert(hash, bucket as u64);
                self.buckets.push(Vec::new());
                proof {
                    self.bucket_hashes = Ghost(before.bucket_hashes@.push(hash));
                }
                bucket
            },
        };
        let ghost grown = *self;
        self.buckets[bucket].push(id);
        proof {
            self.hashes = Ghost(before.hashes@.push(hash));
            assert(self.storage@ =~= before.storage@ + rendered@);
            assert forall|i: int| 0 <= i < before.entries@.len() implies entry_line(
                self.storage@,
                #[trigger] self.entries@[i],
            ) == entry_line(before.storage@, before.entries@[i]) by {
                let entry = before.entries@[i];
                assert(self.entries@[i] == entry);
                assert(self.storage@.subrange(entry.offset as int, entry.offset + entry.len)
                    =~= before.storage@.subrange(entry.offset as int, entry.offset + entry.len));
            }
            assert(self.storage@.subrange(offset as int, offset + rendered@.len()) =~= rendered@);
            assert(self@ =~= before@.push((rendered@, count)));
            assert forall|other: int|
                0 <= other < before.entries@.len() && #[trigger] before.hashes@[other]
                    == hash implies entry_line(before.storage@, before.entries@[other]).0
                != entry_line(self.storage@, self.entries@.last()).0 by {
                assert(!before.is_entry(other, hash, rendered@));
                assert(before@[other] == entry_line(before.storage@, before.entries@[other]));
            }
            self.entries_stay(&before, &grown, bucket as int, hash);
        }
    }

    proof fn entries_stay(&self, before: &FoldCounts, grown: &FoldCounts, bucket: int, hash: u64)
        requires
            before.wf(),
            0 <= bucket < grown.buckets@.len(),
            self.buckets@.len() == self.buckets.len(),
            self.hashes@ == before.hashes@.push(hash),
            self.entries@.len() == before.entries@.len() + 1,
            self.entries@.last().offset + self.entries@.last().len <= self.storage@.len(),
            before.storage@.len() <= self.storage@.len(),
            self.bucket_hashes@ == grown.bucket_hashes@,
            self.by_hash@ == grown.by_hash@,
            self.by_hash@.contains_key(hash),
            self.by_hash@[hash] == bucket,
            self.bucket_hashes@[bucket] == hash,
            self.bucket_hashes@.len() == self.buckets@.len(),
            grown.buckets@.len() == self.buckets@.len(),
            self.buckets@[bucket]@ == grown.buckets@[bucket]@.push(before.entries@.len() as usize),
            forall|b: int|
                0 <= b < self.buckets@.len() && b != bucket ==> #[trigger] self.buckets@[b]
                    == grown.buckets@[b],
            forall|b: int|
                0 <= b < before.buckets@.len() ==> #[trigger] grown.buckets@[b]
                    == before.buckets@[b] && grown.bucket_hashes@[b] == before.bucket_hashes@[b],
            forall|b: int|
                before.buckets@.len() <= b < grown.buckets@.len() ==> (#[trigger] grown.buckets@[b])@.len()
                    == 0,
            before.entries@.len() <= usize::MAX,
            before.buckets@.len() <= grown.buckets@.len(),
            forall|h: u64|
                h != hash ==> (#[trigger] self.by_hash@.contains_key(h) <==> before.by_hash@.contains_key(
                    h,
                )) && self.by_hash@[h] == before.by_hash@[h],
            before.by_hash@.contains_key(hash) ==> self.by_hash@[hash] == before.by_hash@[hash],
            forall|i: int|
                0 <= i < before.entries@.len() ==> #[trigger] self.entries@[i] == before.entries@[i],
            forall|i: int|
                0 <= i < before.entries@.len() ==> entry_line(
                    self.storage@,
                    #[trigger] self.entries@[i],
                ) == entry_line(before.storage@, before.entries@[i]),
            forall|id: int|
                0 <= id < before.entries@.len() && #[trigger] before.hashes@[id] == hash
                    ==> entry_line(before.storage@, before.entries@[id]).0 != entry_line(
                    self.storage@,
                    self.entries@.last(),
                ).0,
        ensures
            self.wf(),
    {
        let count = before.entries@.len() as int;
        assert forall|b: int, k: int|
            0 <= b < self.buckets@.len() && 0 <= k < self.buckets@[b]@.len() implies {
            let id = #[trigger] self.buckets@[b]@[k];
            id < self.entries@.len() && self.hashes@[id as int] == self.bucket_hashes@[b]
        } by {
            if b == bucket && k == self.buckets@[b]@.len() - 1 {
                assert(self.buckets@[b]@[k] == count);
            } else {
                assert(self.buckets@[b]@[k] == grown.buckets@[b]@[k]);
                assert(b < before.buckets@.len());
                assert(grown.buckets@[b] == before.buckets@[b]);
                let id = before.buckets@[b]@[k];
                assert(self.hashes@[id as int] == before.hashes@[id as int]);
            }
        }
        assert forall|i: int| 0 <= i < self.entries@.len() implies self.by_hash@.contains_key(
            #[trigger] self.hashes@[i],
        ) && self.in_bucket(i, self.by_hash@[self.hashes@[i]] as int) by {
            if i == count {
                let last = self.buckets@[bucket]@.len() - 1;
                assert(self.buckets@[bucket]@[last] == i);
                assert(self.in_bucket(i, bucket));
            } else {
                assert(self.hashes@[i] == before.hashes@[i]);
                assert(before.by_hash@.contains_key(before.hashes@[i]));
                let b = before.by_hash@[before.hashes@[i]] as int;
                assert(before.in_bucket(i, b));
                let k = choose|k: int|
                    0 <= k < before.buckets@[b]@.len() && #[trigger] before.buckets@[b]@[k] == i;
                assert(grown.buckets@[b] == before.buckets@[b]);
                assert(self.buckets@[b]@[k] == i);
                assert(self.in_bucket(i, b));
                assert(self.by_hash@.contains_key(before.hashes@[i]));
                assert(self.by_hash@[before.hashes@[i]] == before.by_hash@[before.hashes@[i]]);
            }
        }
        assert forall|h: u64| #[trigger] self.by_hash@.contains_key(h) implies self.by_hash@[h]
            < self.buckets@.len() && self.bucket_hashes@[self.by_hash@[h] as int] == h by {
            if h != hash {
                assert(before.by_hash@.contains_key(h));
                let b = before.by_hash@[h] as int;
                assert(grown.buckets@[b] == before.buckets@[b]);
            }
        }
        assert forall|i: int, j: int|
            #![trigger self.entries@[i], self.entries@[j]]
            0 <= i < j < self.entries@.len() && self.hashes@[i] == self.hashes@[j] implies entry_line(
            self.storage@,
            self.entries@[i],
        ).0 != entry_line(self.storage@, self.entries@[j]).0 by {
            assert(self.hashes@[i] == before.hashes@[i]);
            if j < count {
                assert(self.hashes@[j] == before.hashes@[j]);
                let a = before.entries@[i];
                let b = before.entries@[j];
            }
        }
    }

    fn lines(&self) -> (lines: Vec<FoldLine>)
        requires
            self.wf(),
        ensures
            line_views(lines@) == self@,
    {
        let mut lines: Vec<FoldLine> = Vec::with_capacity(self.entries.len());
        let mut id: usize = 0;
        while id < self.entries.len()
            invariant
                self.wf(),
                id <= self.entries@.len(),
                self.entries@.len() == self@.len(),
                lines@.len() == id,
                forall|i: int| 0 <= i < id ==> (#[trigger] lines@[i])@ == self@[i],
            decreases self.entries@.len() - id,
        {
            lines.push(
                FoldLine {
                    bytes: slice_to_vec(self.entry_bytes(id)),
                    count: self.entries[id].count,
                },
            );
            id += 1;
        }
        assert(line_views(lines@) =~= self@);
        lines
    }
}

impl Default for FoldCounts {
    fn default() -> (counts: FoldCounts)
        ensures
            counts.wf(),
            counts@ == Seq::<LineModel>::empty(),
            totals(counts@) == Map::<Seq<u8>, u64>::empty(),
    {
        FoldCounts::new()
    }
}

// ---------------------------------------------------------------------------
// Writing
// ---------------------------------------------------------------------------

/// The bytes of a folded line with its line feed.
pub open spec fn line_bytes(line: LineModel) -> Seq<u8> {
    line.0 + seq![0x20u8] + encode_utf8(decimal(line.1 as nat)) + seq![0x0au8]
}

/// The bytes of lines from index `from` on, or the error for the first that is no text.
pub open spec fn written_from(lines: Seq<LineModel>, from: int) -> Result<Seq<u8>, Seq<char>>
    decreases lines.len() - from,
{
    if from >= lines.len() {
        Ok(Seq::empty())
    } else if !valid_utf8(lines[from].0) {
        Err("stored folded output is not utf-8: "@ + utf8_error(lines[from].0))
    } else {
        match written_from(lines, from + 1) {
            Err(error) => Err(error),
            Ok(rest) => Ok(line_bytes(lines[from]) + rest),
        }
    }
}

/// Whether an outcome is that of writing counted lines in byte order.
pub open spec fn writes_lines(
    outcome: Result<Seq<u8>, Seq<char>>,
    counts: Map<Seq<u8>, u64>,
) -> bool {
    exists|lines: Seq<LineModel>| #[trigger]
        lists_lines(lines, counts) && outcome == written_from(lines, 0)
}

/// Appends a folded line.
pub fn write_folded_line(written: &mut Vec<u8>, callchain: &[u8], count: u64)
    ensures
        final(written)@ == old(written)@ + line_bytes((callchain@, count)),
{
    let ghost start = written@;
    written.extend_from_slice(callchain);
    written.push(0x20);
    let mut number = String::new();
    push_decimal(&mut number, count as u128);
    written.extend_from_slice(number.as_str().as_bytes());
    written.push(0x0a);
    assert(number@ =~= decimal(count as nat));
    assert(written@ =~= start + line_bytes((callchain@, count)));
}

/// Appends all counted lines, each different one once, in byte order.
///
/// # Errors
///
/// Returns an error when a line is not UTF-8.
pub fn write_fold_counts(counts: FoldCounts, written: &mut Vec<u8>) -> (result: Result<(), String>)
    requires
        counts.wf(),
    ensures
        result is Ok ==> old(written)@.len() <= final(written)@.len() && final(written)@.subrange(
            0,
            old(written)@.len() as int,
        ) == old(written)@ && writes_lines(
            Ok(
                final(written)@.subrange(
                    old(written)@.len() as int,
                    final(written)@.len() as int,
                ),
            ),
            totals(counts@),
        ),
        result matches Err(error) ==> writes_lines(Err(error@), totals(counts@)),
{
    let lines = counts.lines();
    let ghost unsorted = lines@;
    let ordered = sort(lines);
    proof {
        totals_of_permutation(ordered@, unsorted);
    }
    let merged = merge_lines(ordered);
    let ghost all = line_views(merged@);
    let ghost start = written@;
    let ghost mut done: Seq<u8> = Seq::empty();
    let mut index: usize = 0;
    assert(start + done =~= start);
    proof {
        assert(written_from(all, 0) == match written_from(all, 0) {
            Err(error) => Err::<Seq<u8>, Seq<char>>(error),
            Ok(rest) => Ok(done + rest),
        }) by {
            if let Ok(rest) = written_from(all, 0) {
                assert(done + rest =~= rest);
            }
        }
    }
    while index < merged.len()
        invariant
            index <= merged@.len(),
            all == line_views(merged@),
            lists_lines(all, totals(counts@)),
            written@ == start + done,
            start == old(written)@,
            written_from(all, 0) == match written_from(all, index as int) {
                Err(error) => Err::<Seq<u8>, Seq<char>>(error),
                Ok(rest) => Ok(done + rest),
            },
        decreases merged@.len() - index,
    {
        assert(all[index as int] == merged@[index as int]@);
        match text_from_utf8(merged[index].bytes.as_slice()) {
            Ok(_) => {},
            Err(error) => {
                let message = crate::text::joined(
                    "stored folded output is not utf-8: ",
                    error.as_str(),
                );
                assert(written_from(all, 0) == Err::<Seq<u8>, Seq<char>>(message@));
                return Err(message);
            },
        }
        write_folded_line(written, merged[index].bytes.as_slice(), merged[index].count);
        proof {
            let line = line_bytes(all[index as int]);
            let before = done;
            done = before + line;
            assert(start + done =~= start + before + line);
            if let Ok(rest) = written_from(all, index + 1) {
                assert(before + (line + rest) =~= done + rest);
            }
        }
        index += 1;
    }
    proof {
        assert(done + Seq::<u8>::empty() =~= done);
        assert(written@.subrange(start.len() as int, written@.len() as int) =~= done);
        assert(written@.subrange(0, start.len() as int) =~= start);
        assert(written_from(all, 0) == Ok::<Seq<u8>, Seq<char>>(done));
    }
    Ok(())
}

/// The order of additions makes no difference.
pub proof fn additions_commute(
    counts: Map<Seq<u8>, u64>,
    first: Seq<u8>,
    first_count: u64,
    second: Seq<u8>,
    second_count: u64,
)
    ensures
        with_line(with_line(counts, first, first_count), second, second_count) == with_line(
            with_line(counts, second, second_count),
            first,
            first_count,
        ),
{
    assert(with_line(with_line(counts, first, first_count), second, second_count) =~= with_line(
        with_line(counts, second, second_count),
        first,
        first_count,
    ));
}

/// No count is lost: what is counted for a line is added to the total, where that is not too
/// large.
pub proof fn additions_add_up(counts: Map<Seq<u8>, u64>, bytes: Seq<u8>, count: u64)
    requires
        counts.dom().finite(),
        total(counts) + count <= u64::MAX,
    ensures
        with_line(counts, bytes, count).dom().finite(),
        total(with_line(counts, bytes, count)) == total(counts) + count,
{
    let before = if counts.contains_key(bytes) {
        counts[bytes] as int
    } else {
        0
    };
    if counts.contains_key(bytes) {
        count_within_total(counts, bytes);
    }
    total_with_count(counts, bytes, count, (before + count) as u64);
}

} // verus!
