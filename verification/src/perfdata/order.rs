//! When records were written, and records in the order of their times.

use vstd::prelude::*;

use crate::perfdata::endian::{
    le_u32, le_u64, lowest_bytes_come_first, read_u64, u32_at, unexpected_end,
};
use crate::perfdata::layouts::{field_len, field_size, LayoutsModel, SampleLayouts};
use crate::perfdata::records::{
    ParsedModel, ParsedRecord, PerfRecord, PERF_RECORD_SAMPLE,
};
use crate::perfdata::samples::{
    SampleLayout, PERF_SAMPLE_CPU, PERF_SAMPLE_ID, PERF_SAMPLE_IDENTIFIER, PERF_SAMPLE_IP,
    PERF_SAMPLE_STREAM_ID, PERF_SAMPLE_TID, PERF_SAMPLE_TIME,
};
use crate::sorting::{same_items, sort, Ranked};
use crate::text::views;

verus! {

broadcast use vstd::std_specs::control_flow::group_control_flow_axioms;

// ---------------------------------------------------------------------------
// Times
// ---------------------------------------------------------------------------

/// Where a sample holds its time.
pub open spec fn time_offset(sample_type: u64) -> int {
    field_size(sample_type, PERF_SAMPLE_IDENTIFIER) + field_size(sample_type, PERF_SAMPLE_IP)
        + field_size(sample_type, PERF_SAMPLE_TID)
}

/// The word at an offset, or the error that the data ends there.
pub open spec fn word_or_end(payload: Seq<u8>, offset: int) -> Result<Option<u64>, Seq<char>> {
    if offset + 8 > payload.len() {
        Err(unexpected_end(offset))
    } else {
        Ok(Some(le_u64(payload, offset)))
    }
}

/// The time of a sample, where samples hold one.
pub open spec fn sample_time_of(payload: Seq<u8>, layout: SampleLayout) -> Result<
    Option<u64>,
    Seq<char>,
> {
    if layout.sample_type & PERF_SAMPLE_TIME == 0 {
        Ok(None)
    } else {
        word_or_end(payload, time_offset(layout.sample_type))
    }
}

/// Whether a result holds an outcome.
pub open spec fn tells<T>(result: Result<T, String>, told: Result<T, Seq<char>>) -> bool {
    match result {
        Ok(value) => told == Ok::<T, Seq<char>>(value),
        Err(error) => told == Err::<T, Seq<char>>(error@),
    }
}

fn sample_payload_time(payload: &[u8], layout: SampleLayout) -> (result: Result<
    Option<u64>,
    String,
>)
    ensures
        tells(result, sample_time_of(payload@, layout)),
{
    let kind: u64 = layout.sample_type;
    if kind & PERF_SAMPLE_TIME == 0 {
        return Ok(None);
    }
    let offset: usize = field_len(kind, PERF_SAMPLE_IDENTIFIER) + field_len(kind, PERF_SAMPLE_IP)
        + field_len(kind, PERF_SAMPLE_TID);
    let time: u64 = read_u64(payload, offset)?;
    Ok(Some(time))
}

/// The size of the id fields behind a record's contents.
pub open spec fn id_fields_size(layout: SampleLayout) -> int {
    field_size(layout.sample_type, PERF_SAMPLE_TID) + field_size(
        layout.sample_type,
        PERF_SAMPLE_TIME,
    ) + field_size(layout.sample_type, PERF_SAMPLE_ID) + field_size(
        layout.sample_type,
        PERF_SAMPLE_STREAM_ID,
    ) + field_size(layout.sample_type, PERF_SAMPLE_CPU) + field_size(
        layout.sample_type,
        PERF_SAMPLE_IDENTIFIER,
    )
}

/// The size of the id fields behind a record's contents.
pub fn sample_id_size(layout: SampleLayout) -> (size: usize)
    ensures
        size == id_fields_size(layout),
        size <= 48,
{
    let kind: u64 = layout.sample_type;
    field_len(kind, PERF_SAMPLE_TID) + field_len(kind, PERF_SAMPLE_TIME) + field_len(
        kind,
        PERF_SAMPLE_ID,
    ) + field_len(kind, PERF_SAMPLE_STREAM_ID) + field_len(kind, PERF_SAMPLE_CPU) + field_len(
        kind,
        PERF_SAMPLE_IDENTIFIER,
    )
}

/// The time in the id fields behind a record's contents.
pub open spec fn id_time_of(payload: Seq<u8>, layout: SampleLayout) -> Option<u64> {
    let size = id_fields_size(layout);
    if layout.sample_type & PERF_SAMPLE_TIME == 0 || payload.len() < size {
        None
    } else {
        Some(
            le_u64(
                payload,
                payload.len() - size + field_size(layout.sample_type, PERF_SAMPLE_TID),
            ),
        )
    }
}

/// The thread in the id fields behind a record's contents.
pub open spec fn id_tid_of(payload: Seq<u8>, layout: SampleLayout) -> Option<u32> {
    let size = id_fields_size(layout);
    if layout.sample_type & PERF_SAMPLE_TID == 0 || payload.len() < size {
        None
    } else {
        Some(le_u32(payload, payload.len() - size + 4))
    }
}

fn sample_id_payload_time(payload: &[u8], layout: SampleLayout) -> (time: Option<u64>)
    ensures
        time == id_time_of(payload@, layout),
{
    if layout.sample_type & PERF_SAMPLE_TIME == 0 {
        return None;
    }
    let size: usize = sample_id_size(layout);
    if payload.len() < size {
        return None;
    }
    let offset: usize = payload.len() - size + field_len(layout.sample_type, PERF_SAMPLE_TID);
    match read_u64(payload, offset) {
        Ok(time) => Some(time),
        Err(_) => None,
    }
}

fn sample_id_payload_tid(payload: &[u8], layout: SampleLayout) -> (tid: Option<u32>)
    ensures
        tid == id_tid_of(payload@, layout),
{
    if layout.sample_type & PERF_SAMPLE_TID == 0 {
        return None;
    }
    let size: usize = sample_id_size(layout);
    if payload.len() < size {
        return None;
    }
    Some(u32_at(payload, payload.len() - size + 4))
}

impl LayoutsModel {
    /// The layout of the id fields behind the contents of records that are no samples.
    pub open spec fn id_layout(self) -> Option<SampleLayout> {
        if self.events.len() > 0 && self.events[0].layout.sample_id_all {
            Some(self.events[0].layout)
        } else {
            None
        }
    }

    /// The time of a record, where it holds one.
    pub open spec fn time_of(self, record_type: u32, payload: Seq<u8>) -> Result<
        Option<u64>,
        Seq<char>,
    > {
        if record_type == PERF_RECORD_SAMPLE {
            match self.event_for(payload) {
                Err(error) => Err(error),
                Ok(None) => Ok(None),
                Ok(Some(index)) => sample_time_of(payload, self.events[index].layout),
            }
        } else {
            match self.id_layout() {
                None => Ok(None),
                Some(layout) => Ok(id_time_of(payload, layout)),
            }
        }
    }

    /// The thread that a deferred callchain belongs to, where it names one.
    pub open spec fn deferred_tid(self, sample_id: Seq<u8>) -> Option<u32> {
        match self.id_layout() {
            None => None,
            Some(layout) => id_tid_of(sample_id, layout),
        }
    }
}

impl SampleLayouts {
    fn id_layout(&self) -> (layout: Option<SampleLayout>)
        ensures
            layout == self@.id_layout(),
    {
        if self.events.len() == 0 {
            return None;
        }
        assert(self@.events[0] == self.events@[0]@);
        if self.events[0].layout.sample_id_all {
            Some(self.events[0].layout)
        } else {
            None
        }
    }
}

/// Finds the time of a record.
///
/// # Errors
///
/// Returns an error when a sample ends in front of its event's id or its time.
pub fn record_time(record: &PerfRecord<'_>, sample_layouts: &SampleLayouts) -> (result: Result<
    Option<u64>,
    String,
>)
    requires
        sample_layouts@.wf(),
    ensures
        tells(result, sample_layouts@.time_of(record.header.record_type, record.payload@)),
{
    if record.header.record_type == PERF_RECORD_SAMPLE {
        let index: usize = match sample_layouts.event_index_for_payload(record.payload)? {
            Some(index) => index,
            None => return Ok(None),
        };
        assert(sample_layouts@.events[index as int] == sample_layouts.events@[index as int]@);
        return sample_payload_time(record.payload, sample_layouts.events[index].layout);
    }
    match sample_layouts.id_layout() {
        None => Ok(None),
        Some(layout) => Ok(sample_id_payload_time(record.payload, layout)),
    }
}

/// Finds the thread that a deferred callchain belongs to.
pub fn deferred_callchain_tid(sample_id: &[u8], sample_layouts: &SampleLayouts) -> (tid: Option<
    u32,
>)
    ensures
        tid == sample_layouts@.deferred_tid(sample_id@),
{
    match sample_layouts.id_layout() {
        None => None,
        Some(layout) => sample_id_payload_tid(sample_id, layout),
    }
}

// ---------------------------------------------------------------------------
// Records in the order of their times
// ---------------------------------------------------------------------------

/// A record that waits for its turn.
#[derive(Clone, Debug)]
pub struct PendingParsedRecord {
    pub index: usize,
    pub time: u64,
    pub record: ParsedRecord,
}

/// The contents of a [`PendingParsedRecord`].
#[verifier::ext_equal]
pub struct PendingModel {
    pub index: int,
    pub time: u64,
    pub record: ParsedModel,
}

impl View for PendingParsedRecord {
    type V = PendingModel;

    open spec fn view(&self) -> PendingModel {
        PendingModel { index: self.index as int, time: self.time, record: self.record@ }
    }
}

/// Earlier times first, and records of one time in the order of their places in the file.
pub open spec fn not_after(left: PendingModel, right: PendingModel) -> bool {
    left.time < right.time || (left.time == right.time && left.index <= right.index)
}

impl Ranked for PendingParsedRecord {
    open spec fn before(&self, other: &Self) -> bool {
        not_after(self@, other@)
    }

    fn in_order(&self, other: &Self) -> (ordered: bool) {
        self.time < other.time || (self.time == other.time && self.index <= other.index)
    }

    proof fn order_is_total(left: &Self, right: &Self) {
    }

    proof fn order_is_transitive(a: &Self, b: &Self, c: &Self) {
    }
}

/// How many of the first `count` records come no later than an item, when they stand in order.
pub open spec fn place_of(records: Seq<PendingModel>, item: PendingModel, count: int) -> int
    decreases count,
{
    if count <= 0 {
        0
    } else if not_after(records[count - 1], item) {
        count
    } else {
        place_of(records, item, count - 1)
    }
}

/// Records in order with one more in its place.
pub open spec fn placed(records: Seq<PendingModel>, item: PendingModel) -> Seq<PendingModel> {
    records.insert(place_of(records, item, records.len() as int), item)
}

/// How many of the first `count` records, which stand in order, were written up to a time.
pub open spec fn count_through(records: Seq<PendingModel>, limit: u64, count: int) -> int
    decreases count,
{
    if count <= 0 {
        0
    } else if records[count - 1].time <= limit {
        count
    } else {
        count_through(records, limit, count - 1)
    }
}

/// Whether records stand in order, and no two at one place in the file.
pub open spec fn in_turn(records: Seq<PendingModel>) -> bool {
    forall|i: int, j: int|
        #![trigger records[i], records[j]]
        0 <= i < j < records.len() ==> not_after(records[i], records[j]) && records[i].index
            != records[j].index
}

/// Records waiting in order, up to which time the next round lets them go, and the latest time
/// seen.
#[verifier::ext_equal]
pub struct QueueModel {
    pub pending: Seq<PendingModel>,
    pub next_flush_time: Option<u64>,
    pub max_timestamp: Option<u64>,
}

impl QueueModel {
    /// The queue that nothing waits in.
    pub open spec fn nothing() -> QueueModel {
        QueueModel { pending: Seq::empty(), next_flush_time: None, max_timestamp: None }
    }

    /// The queue with one more record waiting.
    pub open spec fn queued(self, item: PendingModel) -> QueueModel {
        QueueModel {
            pending: placed(self.pending, item),
            max_timestamp: Some(
                match self.max_timestamp {
                    Some(latest) => if latest > item.time {
                        latest
                    } else {
                        item.time
                    },
                    None => item.time,
                },
            ),
            ..self
        }
    }

    /// How many records the end of a round lets go: those up to the latest time at the end of
    /// the round before.
    pub open spec fn round_count(self) -> int {
        match self.next_flush_time {
            Some(limit) => count_through(self.pending, limit, self.pending.len() as int),
            None => 0,
        }
    }

    /// The records that the end of a round lets go.
    pub open spec fn round(self) -> Seq<ParsedModel> {
        self.pending.subrange(0, self.round_count()).map_values(
            |pending: PendingModel| pending.record,
        )
    }

    /// The queue after the end of a round.
    pub open spec fn after_round(self) -> QueueModel {
        QueueModel {
            pending: self.pending.subrange(self.round_count(), self.pending.len() as int),
            next_flush_time: self.max_timestamp,
            ..self
        }
    }

    /// All records that still wait, in order.
    pub open spec fn rest(self) -> Seq<ParsedModel> {
        self.pending.map_values(|pending: PendingModel| pending.record)
    }
}

/// Records that wait until all earlier ones have been read.
pub struct OrderedRecordQueue {
    pending_records: Vec<PendingParsedRecord>,
    next_flush_time: Option<u64>,
    max_timestamp: Option<u64>,
    order: Ghost<Seq<PendingModel>>,
    bound: Ghost<int>,
}

impl View for OrderedRecordQueue {
    type V = QueueModel;

    closed spec fn view(&self) -> QueueModel {
        QueueModel {
            pending: self.order@,
            next_flush_time: self.next_flush_time,
            max_timestamp: self.max_timestamp,
        }
    }
}

/// Putting a record in its place keeps records in order.
proof fn placed_in_turn(records: Seq<PendingModel>, item: PendingModel, count: int)
    requires
        in_turn(records),
        0 <= count <= records.len(),
        forall|i: int| 0 <= i < records.len() ==> (#[trigger] records[i]).index != item.index,
        forall|i: int| count <= i < records.len() ==> not_after(item, #[trigger] records[i]),
    ensures
        0 <= place_of(records, item, count) <= count,
        in_turn(records.insert(place_of(records, item, count), item)),
    decreases count,
{
    if count > 0 && !not_after(records[count - 1], item) {
        placed_in_turn(records, item, count - 1);
    } else {
        let placed = records.insert(count, item);
        assert forall|i: int, j: int|
            #![trigger placed[i], placed[j]]
            0 <= i < j < placed.len() implies not_after(placed[i], placed[j]) && placed[i].index
            != placed[j].index by {
            if i < count && count <= j {
                assert(not_after(records[i], records[count - 1]));
            }
            let left = if i < count {
                i
            } else {
                i - 1
            };
            let right = if j < count {
                j
            } else {
                j - 1
            };
            if i != count && j != count {
                assert(placed[i] == records[left]);
                assert(placed[j] == records[right]);
            }
        }
    }
}

/// The records up to a time are those in front.
proof fn count_through_splits(records: Seq<PendingModel>, limit: u64, count: int)
    requires
        in_turn(records),
        0 <= count <= records.len(),
    ensures
        0 <= count_through(records, limit, count) <= count,
        forall|i: int|
            0 <= i < count ==> ((#[trigger] records[i]).time <= limit <==> i < count_through(
                records,
                limit,
                count,
            )),
    decreases count,
{
    if count > 0 {
        if records[count - 1].time <= limit {
            assert forall|i: int| 0 <= i < count implies (#[trigger] records[i]).time
                <= limit by {
                if i < count - 1 {
                    assert(not_after(records[i], records[count - 1]));
                }
            }
        } else {
            count_through_splits(records, limit, count - 1);
        }
    }
}

/// An insertion adds one item.
proof fn contains_after_insert<T>(items: Seq<T>, at: int, item: T, wanted: T)
    requires
        0 <= at <= items.len(),
    ensures
        items.insert(at, item).contains(wanted) <==> items.contains(wanted) || wanted == item,
{
    let inserted = items.insert(at, item);
    if items.contains(wanted) {
        let i = choose|i: int| 0 <= i < items.len() && items[i] == wanted;
        if i < at {
            assert(inserted[i] == wanted);
        } else {
            assert(inserted[i + 1] == wanted);
        }
    }
    if wanted == item {
        assert(inserted[at] == wanted);
    }
    if inserted.contains(wanted) {
        let i = choose|i: int| 0 <= i < inserted.len() && inserted[i] == wanted;
        if i < at {
            assert(items[i] == wanted);
        } else if i > at {
            assert(items[i - 1] == wanted);
        }
    }
}

impl OrderedRecordQueue {
    /// A bound on the places of the waiting records.
    pub closed spec fn bound(&self) -> int {
        self.bound@
    }

    /// Whether the order is that of the waiting records, and their places are below the bound.
    pub closed spec fn wf(&self) -> bool {
        &&& in_turn(self.order@)
        &&& self.order@.len() == self.pending_records@.len()
        &&& forall|item: PendingModel| #[trigger]
            self.order@.contains(item) <==> views(self.pending_records@).contains(item)
        &&& forall|i: int|
            0 <= i < self.order@.len() ==> 0 <= (#[trigger] self.order@[i]).index < self.bound@
    }

    /// The waiting records stand in order.
    pub proof fn waits_in_turn(&self)
        requires
            self.wf(),
        ensures
            in_turn(self@.pending),
    {
    }

    /// A queue that nothing waits in.
    pub fn new() -> (queue: OrderedRecordQueue)
        ensures
            queue@ == QueueModel::nothing(),
            queue.wf(),
            queue.bound() == 0,
    {
        let queue = OrderedRecordQueue {
            pending_records: Vec::new(),
            next_flush_time: None,
            max_timestamp: None,
            order: Ghost(Seq::empty()),
            bound: Ghost(0),
        };
        assert(views(queue.pending_records@) =~= Seq::empty());
        queue
    }

    /// Lets a record wait. Its place in the file is behind those of the records that wait.
    pub fn queue(&mut self, index: usize, time: u64, record: ParsedRecord)
        requires
            old(self).wf(),
            old(self).bound() <= index,
        ensures
            final(self)@ == old(self)@.queued(
                (PendingModel { index: index as int, time, record: record@ }),
            ),
            final(self).wf(),
            final(self).bound() == index + 1,
    {
        let ghost before = *self;
        let item = PendingParsedRecord { index, time, record };
        self.max_timestamp = match self.max_timestamp {
            Some(latest) => if latest > time {
                Some(latest)
            } else {
                Some(time)
            },
            None => Some(time),
        };
        self.pending_records.push(item);
        proof {
            let order = before.order@;
            let count = order.len() as int;
            placed_in_turn(order, item@, count);
            let at = place_of(order, item@, count);
            self.order = Ghost(placed(order, item@));
            self.bound = Ghost(index + 1);
            assert(views(self.pending_records@) =~= views(before.pending_records@).push(item@));
            assert forall|wanted: PendingModel| #[trigger]
                self.order@.contains(wanted) <==> views(self.pending_records@).contains(
                    wanted,
                ) by {
                contains_after_insert(order, at, item@, wanted);
                let all = views(before.pending_records@);
                assert(order.contains(wanted) <==> all.contains(wanted));
                assert(all.push(item@) =~= all.insert(all.len() as int, item@));
                contains_after_insert(all, all.len() as int, item@, wanted);
            }
        }
    }

    /// Sorts the waiting records.
    fn arrange(&mut self)
        requires
            old(self).wf(),
        ensures
            final(self)@ == old(self)@,
            final(self).wf(),
            final(self).bound() == old(self).bound(),
            views(final(self).pending_records@) == final(self).order@,
    {
        let ghost before = *self;
        let mut waiting: Vec<PendingParsedRecord> = Vec::new();
        std::mem::swap(&mut waiting, &mut self.pending_records);
        let ghost unsorted = waiting@;
        let arranged = sort(waiting);
        proof {
            same_items(arranged@, unsorted);
            let order = self.order@;
            let all = views(arranged@);
            assert forall|item: PendingModel| #[trigger]
                order.contains(item) <==> all.contains(item) by {
                if all.contains(item) {
                    let i = choose|i: int| 0 <= i < all.len() && all[i] == item;
                    assert(arranged@.contains(arranged@[i]));
                    let j = choose|j: int| 0 <= j < unsorted.len() && unsorted[j] == arranged@[i];
                    assert(views(unsorted)[j] == item);
                }
                if views(unsorted).contains(item) {
                    let i = choose|i: int| 0 <= i < unsorted.len() && views(unsorted)[i] == item;
                    assert(unsorted.contains(unsorted[i]));
                    let j = choose|j: int| 0 <= j < arranged@.len() && arranged@[j] == unsorted[i];
                    assert(all[j] == item);
                }
            }
            same_turns(order, all);
        }
        self.pending_records = arranged;
    }

    fn let_go(&mut self, count: usize) -> (records: Vec<ParsedRecord>)
        requires
            old(self).wf(),
            views(old(self).pending_records@) == old(self).order@,
            count <= old(self)@.pending.len(),
        ensures
            final(self).wf(),
            final(self).bound() == old(self).bound(),
            final(self)@ == (QueueModel {
                pending: old(self)@.pending.subrange(
                    count as int,
                    old(self)@.pending.len() as int,
                ),
                ..old(self)@
            }),
            views(records@) == old(self)@.pending.subrange(0, count as int).map_values(
                |pending: PendingModel| pending.record,
            ),
    {
        let ghost before = *self;
        let ghost order = self.order@;
        let rest = self.pending_records.split_off(count);
        let mut gone: Vec<PendingParsedRecord> = rest;
        std::mem::swap(&mut gone, &mut self.pending_records);
        proof {
            self.order = Ghost(order.subrange(count as int, order.len() as int));
            assert(views(self.pending_records@) =~= self.order@);
            assert(views(gone@) =~= order.subrange(0, count as int));
        }
        let ghost front = gone@;
        let mut records: Vec<ParsedRecord> = Vec::with_capacity(count);
        for pending in it: gone
            invariant
                it.seq() == front,
                records@.len() == it.index(),
                forall|i: int| 0 <= i < it.index() ==> #[trigger] records@[i] == front[i].record,
        {
            records.push(pending.record);
        }
        proof {
            assert(views(records@) =~= before@.pending.subrange(0, count as int).map_values(
                |pending: PendingModel| pending.record,
            )) by {
                assert forall|i: int| 0 <= i < count implies views(records@)[i] == (#[trigger] before@.pending[i]).record by {
                    assert(views(front)[i] == order[i]);
                }
            }
        }
        records
    }

    /// Ends a round: lets the records go that were written up to the latest time at the end of
    /// the round before.
    pub fn flush_round(&mut self) -> (records: Vec<ParsedRecord>)
        requires
            old(self).wf(),
        ensures
            views(records@) == old(self)@.round(),
            final(self)@ == old(self)@.after_round(),
            final(self).wf(),
            final(self).bound() == old(self).bound(),
    {
        let mut count: usize = 0;
        let ghost before = self@;
        self.arrange();
        if let Some(limit) = self.next_flush_time {
            count = self.pending_records.len();
            while count > 0 && self.pending_records[count - 1].time > limit
                invariant
                    count <= self.pending_records@.len(),
                    views(self.pending_records@) == self.order@,
                    count_through(self.order@, limit, self.order@.len() as int) == count_through(
                        self.order@,
                        limit,
                        count as int,
                    ),
                decreases count,
            {
                assert(self.order@[count - 1] == self.pending_records@[count - 1]@);
                count -= 1;
            }
            if count > 0 {
                assert(self.order@[count - 1] == self.pending_records@[count - 1]@);
            }
        }
        assert(count == before.round_count());
        let records = self.let_go(count);
        self.next_flush_time = self.max_timestamp;
        records
    }

    /// Lets all records go.
    pub fn flush_final(&mut self) -> (records: Vec<ParsedRecord>)
        requires
            old(self).wf(),
        ensures
            views(records@) == old(self)@.rest(),
            final(self)@ == (QueueModel { pending: Seq::empty(), ..old(self)@ }),
            final(self).wf(),
            final(self).bound() == old(self).bound(),
    {
        self.arrange();
        let count: usize = self.pending_records.len();
        let ghost before = self@;
        let records = self.let_go(count);
        proof {
            assert(before.pending.subrange(0, count as int) =~= before.pending);
            assert(self@.pending =~= Seq::empty());
        }
        records
    }
}

/// Records in turn stand in one order only.
proof fn same_turns(order: Seq<PendingModel>, other: Seq<PendingModel>)
    requires
        in_turn(order),
        order.len() == other.len(),
        forall|i: int, j: int|
            #![trigger other[i], other[j]]
            0 <= i < j < other.len() ==> not_after(other[i], other[j]),
        forall|item: PendingModel| #[trigger] order.contains(item) <==> other.contains(item),
    ensures
        order == other,
    decreases order.len(),
{
    if order.len() > 0 {
        let last = order.len() - 1;
        assert(order.contains(order[last]));
        assert(other.contains(other[last]));
        assert(order.contains(other[last]));
        let j = choose|j: int| 0 <= j < other.len() && other[j] == order[last];
        let i = choose|i: int| 0 <= i < order.len() && order[i] == other[last];
        assert(order[last] == other[last]) by {
            if i != last {
                assert(not_after(order[i], order[last]));
            }
            if j != last {
                assert(not_after(other[j], other[last]));
            }
        }
        let order_rest = order.drop_last();
        let other_rest = other.drop_last();
        // `other` holds as many items as `order`, and each once.
        same_count(order, other);
        assert forall|item: PendingModel| #[trigger]
            order_rest.contains(item) <==> other_rest.contains(item) by {
            if order_rest.contains(item) {
                let k = choose|k: int| 0 <= k < order_rest.len() && order_rest[k] == item;
                assert(order[k] == item);
                assert(order.contains(item));
                let m = choose|m: int| 0 <= m < other.len() && other[m] == item;
                assert(m != last);
                assert(other_rest[m] == item);
            }
            if other_rest.contains(item) {
                let k = choose|k: int| 0 <= k < other_rest.len() && other_rest[k] == item;
                assert(other[k] == item);
                assert(other.contains(item));
                assert(order.contains(item));
                assert(other[k] != other[last]);
                let m = choose|m: int| 0 <= m < order.len() && order[m] == item;
                assert(m != last);
                assert(order_rest[m] == item);
            }
        }
        same_turns(order_rest, other_rest);
        assert(order =~= order_rest.push(order[last]));
        assert(other =~= other_rest.push(other[last]));
    } else {
        assert(order =~= other);
    }
}

/// A list as long as a list without repetition, with the same items, repeats none.
proof fn same_count(order: Seq<PendingModel>, other: Seq<PendingModel>)
    requires
        in_turn(order),
        order.len() == other.len(),
        forall|item: PendingModel| #[trigger] order.contains(item) <==> other.contains(item),
    ensures
        other.no_duplicates(),
{
    assert(order.no_duplicates()) by {
        assert forall|i: int, j: int| 0 <= i < order.len() && 0 <= j < order.len() && i != j implies
            order[i] != order[j] by {
            if i < j {
                assert(order[i].index != order[j].index);
            } else {
                assert(order[j].index != order[i].index);
            }
        }
    }
    assert(order.to_set() =~= other.to_set());
    order.unique_seq_to_set();
    assert(other.to_set().len() == other.len());
    vstd::seq_lib::seq_to_set_is_finite(other);
    other.lemma_no_dup_set_cardinality();
}

/// Records leave in the order of their times, and records of one time in the order of their
/// places in the file.
pub proof fn records_leave_in_order(queue: QueueModel)
    requires
        in_turn(queue.pending),
    ensures
        0 <= queue.round_count() <= queue.pending.len(),
        in_turn(queue.after_round().pending),
        forall|i: int, j: int|
            0 <= i < queue.round_count() <= j < queue.pending.len() ==> not_after(
                #[trigger] queue.pending[i],
                #[trigger] queue.pending[j],
            ),
        queue.next_flush_time matches Some(limit) ==> forall|i: int|
            0 <= i < queue.pending.len() ==> ((#[trigger] queue.pending[i]).time <= limit <==> i
                < queue.round_count()),
{
    match queue.next_flush_time {
        Some(limit) => count_through_splits(queue.pending, limit, queue.pending.len() as int),
        None => {},
    }
}

// ---------------------------------------------------------------------------
// Laws
// ---------------------------------------------------------------------------

/// A record that is queued waits behind those of earlier times, and behind those of its own time
/// that were read before it; all others keep waiting.
pub proof fn queued_records_wait_in_turn(queue: QueueModel, item: PendingModel)
    requires
        in_turn(queue.pending),
        forall|i: int|
            0 <= i < queue.pending.len() ==> (#[trigger] queue.pending[i]).index < item.index,
    ensures
        ({
            let after = queue.queued(item).pending;
            &&& forall|i: int, j: int|
                #![trigger after[i], after[j]]
                0 <= i < j < after.len() ==> after[i].time < after[j].time || (after[i].time
                    == after[j].time && after[i].index < after[j].index)
            &&& after.to_multiset() == queue.pending.to_multiset().insert(item)
            &&& queue.queued(item).next_flush_time == queue.next_flush_time
            &&& queue.queued(item).max_timestamp matches Some(latest) && latest >= item.time && (
            queue.max_timestamp matches Some(before) ==> latest >= before && (latest == before
                || latest == item.time))
        }),
{
    let count = queue.pending.len() as int;
    placed_in_turn(queue.pending, item, count);
    vstd::seq_lib::to_multiset_insert(
        queue.pending,
        place_of(queue.pending, item, count),
        item,
    );
    let after = queue.queued(item).pending;
    assert(in_turn(after));
    assert forall|i: int, j: int|
        #![trigger after[i], after[j]]
        0 <= i < j < after.len() implies after[i].time < after[j].time || (after[i].time
        == after[j].time && after[i].index < after[j].index) by {
        assert(not_after(after[i], after[j]) && after[i].index != after[j].index);
    }
}

/// What the end of a round lets go and what still waits make up all that waited, in its order; the
/// next round lets go what is not later than the latest time that was seen up to now.
pub proof fn rounds_split_what_waits(queue: QueueModel)
    requires
        in_turn(queue.pending),
    ensures
        queue.round() + queue.after_round().rest() == queue.rest(),
        queue.after_round().next_flush_time == queue.max_timestamp,
        queue.next_flush_time is None ==> queue.round().len() == 0,
{
    records_leave_in_order(queue);
    assert(queue.round() + queue.after_round().rest() =~= queue.rest());
}

/// The time of a sample is the one that a reader of the whole sample finds.
pub proof fn times_are_found_where_samples_hold_them(layout: SampleLayout, payload: Seq<u8>)
    requires
        payload.len() >= 72,
    ensures
        sample_time_of(payload, layout) == Ok::<Option<u64>, Seq<char>>(
            layout.head(payload).time,
        ),
{
    reveal(crate::perfdata::samples::past);
}

/// Where records hold their ids behind their contents, what they hold there does not depend on the
/// contents.
pub proof fn ids_stand_at_the_end(layout: SampleLayout, contents: Seq<u8>, ids: Seq<u8>)
    requires
        ids.len() == id_fields_size(layout),
    ensures
        id_time_of(contents + ids, layout) == id_time_of(ids, layout),
        id_tid_of(contents + ids, layout) == id_tid_of(ids, layout),
        layout.sample_type & PERF_SAMPLE_TIME != 0 ==> id_time_of(ids, layout) == Some(
            le_u64(
                ids,
                if layout.sample_type & PERF_SAMPLE_TID != 0 {
                    8
                } else {
                    0
                },
            ),
        ),
        layout.sample_type & PERF_SAMPLE_TID != 0 ==> id_tid_of(ids, layout) == Some(
            le_u32(ids, 4),
        ),
{
    let payload = contents + ids;
    let at = contents.len() as int;
    let skip = field_size(layout.sample_type, PERF_SAMPLE_TID);
    if layout.sample_type & PERF_SAMPLE_TIME != 0 {
        same_word(contents, ids, skip);
    }
    if layout.sample_type & PERF_SAMPLE_TID != 0 {
        lowest_bytes_come_first(payload, at + 4);
        lowest_bytes_come_first(ids, 4);
        assert(payload[at + 4] == ids[4] && payload[at + 5] == ids[5] && payload[at + 6] == ids[6]
            && payload[at + 7] == ids[7]);
    }
}

proof fn same_word(front: Seq<u8>, bytes: Seq<u8>, at: int)
    requires
        0 <= at,
        at + 8 <= bytes.len(),
    ensures
        le_u64(front + bytes, front.len() + at) == le_u64(bytes, at),
{
    let whole = front + bytes;
    let from = front.len() + at;
    lowest_bytes_come_first(whole, from);
    lowest_bytes_come_first(bytes, at);
    assert(whole[from] == bytes[at] && whole[from + 1] == bytes[at + 1] && whole[from + 2]
        == bytes[at + 2] && whole[from + 3] == bytes[at + 3] && whole[from + 4] == bytes[at + 4]
        && whole[from + 5] == bytes[at + 5] && whole[from + 6] == bytes[at + 6] && whole[from + 7]
        == bytes[at + 7]);
}

} // verus!
