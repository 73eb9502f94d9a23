//! What a recording holds: its records by type, names, mappings and sampled callchains.

use std::collections::BTreeMap;

use vstd::prelude::*;
use vstd::string::StringExecFns;

use crate::perfdata::header::{header_of, parse_header};
use crate::perfdata::layouts::{layouts_of, sample_layouts, LayoutsModel, SampleLayouts};
use crate::perfdata::mappings::{
    build_id_mapping, inode_mapping, plain_mapping, MmapTable, TableModel,
};
use crate::perfdata::records::{
    iter_records, parse_record, parsed_record_of, records_of, CommModel, ForkRecord, LostRecord,
    LostSamplesRecord, ParsedModel, ParsedRecord, PerfRecord, RecordModel, SamplePayloadModel,
    PERF_RECORD_MISC_CPUMODE_MASK,
};
use crate::perfdata::samples::{
    parse_sample_record_callchain, sample_callchain_of, CallchainModel, SampleCallchain,
};
use crate::perfdata::unwind::{masked, perf_user_reg_value};
use crate::text::{decimal, looked_up, outcome, push_decimal, texts, texts_of_insert, views};

verus! {

broadcast use {
    vstd::std_specs::control_flow::group_control_flow_axioms,
    vstd::std_specs::btree::group_btree_axioms,
};

/// What a recording holds.
#[derive(Debug)]
pub struct PerfSummary {
    pub total_records: usize,
    pub record_counts: BTreeMap<u32, usize>,
    pub comms: Vec<String>,
    pub comms_by_pid: BTreeMap<u32, String>,
    pub comms_by_tid: BTreeMap<u32, String>,
    pub mmaps: Vec<String>,
    pub lost_records: u64,
    pub mmap_table: MmapTable,
    pub sample_stacks: Vec<PerfSampleStack>,
}

/// A sampled callchain, and what the sample says of the user stack.
#[derive(Clone, Debug, Eq, PartialEq)]
pub struct PerfSampleStack {
    pub misc: u16,
    pub cpumode: u16,
    pub pid: Option<u32>,
    pub tid: Option<u32>,
    pub period: Option<u64>,
    pub callchain: Vec<u64>,
    pub has_user_stack: bool,
    pub user_register_count: usize,
    pub user_register_ip: Option<u64>,
    pub user_stack_size: usize,
    pub user_stack_dynamic_size: u64,
}

/// The contents of a [`PerfSampleStack`].
#[verifier::ext_equal]
pub struct SampleStackModel {
    pub misc: u16,
    pub cpumode: u16,
    pub pid: Option<u32>,
    pub tid: Option<u32>,
    pub period: Option<u64>,
    pub callchain: Seq<u64>,
    pub has_user_stack: bool,
    pub user_register_count: int,
    pub user_register_ip: Option<u64>,
    pub user_stack_size: int,
    pub user_stack_dynamic_size: u64,
}

impl View for PerfSampleStack {
    type V = SampleStackModel;

    open spec fn view(&self) -> SampleStackModel {
        SampleStackModel {
            misc: self.misc,
            cpumode: self.cpumode,
            pid: self.pid,
            tid: self.tid,
            period: self.period,
            callchain: self.callchain@,
            has_user_stack: self.has_user_stack,
            user_register_count: self.user_register_count as int,
            user_register_ip: self.user_register_ip,
            user_stack_size: self.user_stack_size as int,
            user_stack_dynamic_size: self.user_stack_dynamic_size,
        }
    }
}

/// The contents of a [`PerfSummary`].
#[verifier::ext_equal]
pub struct SummaryModel {
    pub total_records: int,
    pub record_counts: Map<u32, usize>,
    pub comms: Seq<Seq<char>>,
    pub comms_by_pid: Map<u32, Seq<char>>,
    pub comms_by_tid: Map<u32, Seq<char>>,
    pub mmaps: Seq<Seq<char>>,
    pub lost_records: u64,
    pub table: TableModel,
    pub sample_stacks: Seq<SampleStackModel>,
}

impl View for PerfSummary {
    type V = SummaryModel;

    open spec fn view(&self) -> SummaryModel {
        SummaryModel {
            total_records: self.total_records as int,
            record_counts: self.record_counts@,
            comms: views(self.comms@),
            comms_by_pid: texts(self.comms_by_pid@),
            comms_by_tid: texts(self.comms_by_tid@),
            mmaps: views(self.mmaps@),
            lost_records: self.lost_records,
            table: self.mmap_table.model(),
            sample_stacks: views(self.sample_stacks@),
        }
    }
}

/// The sum, or the largest number where the sum is larger.
pub open spec fn saturating_sum(left: u64, right: u64) -> u64 {
    if left + right > u64::MAX {
        u64::MAX
    } else {
        (left + right) as u64
    }
}

/// Which code a record was taken in: the low bits of its flags.
pub open spec fn cpumode_of(misc: u16) -> u16 {
    misc & PERF_RECORD_MISC_CPUMODE_MASK
}

/// What a summary keeps of a sample.
pub open spec fn sample_stack_of(
    misc: u16,
    registers: u64,
    sample: CallchainModel,
) -> SampleStackModel {
    SampleStackModel {
        misc,
        cpumode: cpumode_of(misc),
        pid: sample.pid,
        tid: sample.tid,
        period: sample.period,
        callchain: sample.frames,
        has_user_stack: sample.user_stack is Some,
        user_register_count: match sample.user_regs {
            Some(regs) => regs.values.len() as int,
            None => 0,
        },
        user_register_ip: match sample.user_regs {
            Some(regs) => masked(registers, regs.values, 8),
            None => None,
        },
        user_stack_size: match sample.user_stack {
            Some(stack) => stack.bytes.len() as int,
            None => 0,
        },
        user_stack_dynamic_size: match sample.user_stack {
            Some(stack) => stack.dynamic_size,
            None => 0,
        },
    }
}

/// What a summary keeps of a sample's payload: nothing without an event or without a callchain.
pub open spec fn summarized_sample(misc: u16, payload: Seq<u8>, layouts: LayoutsModel) -> Result<
    Option<SampleStackModel>,
    Seq<char>,
> {
    match layouts.event_for(payload) {
        Err(error) => Err(error),
        Ok(None) => Ok(None),
        Ok(Some(index)) => {
            let layout = layouts.events[index].layout;
            match sample_callchain_of(payload, layout) {
                Err(error) => Err(error),
                Ok(None) => Ok(None),
                Ok(Some(sample)) => Ok(
                    Some(sample_stack_of(misc, layout.sample_regs_user, sample)),
                ),
            }
        },
    }
}

fn sample_stack(misc: u16, registers: u64, sample: SampleCallchain<'_>) -> (stack: PerfSampleStack)
    ensures
        stack@ == sample_stack_of(misc, registers, sample@),
{
    let callchain = sample.frames.to_vec();
    let (count, ip): (usize, Option<u64>) = match &sample.user_regs {
        Some(regs) => (
            regs.values.len(),
            perf_user_reg_value(registers, regs.values.as_slice(), 8),
        ),
        None => (0, None),
    };
    let (size, dynamic): (usize, u64) = match &sample.user_stack {
        Some(stack) => (stack.bytes.len(), stack.dynamic_size),
        None => (0, 0),
    };
    PerfSampleStack {
        misc,
        cpumode: misc & PERF_RECORD_MISC_CPUMODE_MASK,
        pid: sample.pid,
        tid: sample.tid,
        period: sample.period,
        callchain,
        has_user_stack: sample.user_stack.is_some(),
        user_register_count: count,
        user_register_ip: ip,
        user_stack_size: size,
        user_stack_dynamic_size: dynamic,
    }
}

/// The contents of an optional sample stack.
pub open spec fn stack_view(stack: Option<PerfSampleStack>) -> Option<SampleStackModel> {
    match stack {
        Some(stack) => Some(stack@),
        None => None,
    }
}

/// Reads what a summary keeps of a sample.
///
/// # Errors
///
/// Returns an error when the sample ends early or has unsupported fields.
pub fn parse_sample_for_summary(
    sample_misc: u16,
    payload: &[u8],
    sample_layouts: &SampleLayouts,
) -> (result: Result<Option<PerfSampleStack>, String>)
    requires
        sample_layouts@.wf(),
    ensures
        match result {
            Ok(stack) => summarized_sample(sample_misc, payload@, sample_layouts@) == Ok::<
                Option<SampleStackModel>,
                Seq<char>,
            >(stack_view(stack)),
            Err(error) => summarized_sample(sample_misc, payload@, sample_layouts@) == Err::<
                Option<SampleStackModel>,
                Seq<char>,
            >(error@),
        },
{
    let index: usize = match sample_layouts.event_index_for_payload(payload)? {
        Some(index) => index,
        None => return Ok(None),
    };
    assert(sample_layouts@.events[index as int] == sample_layouts.events@[index as int]@);
    let layout = sample_layouts.events[index].layout;
    match parse_sample_record_callchain(payload, layout)? {
        Some(sample) => Ok(Some(sample_stack(sample_misc, layout.sample_regs_user, sample))),
        None => Ok(None),
    }
}

/// How an error in a record is told.
pub open spec fn record_error(record_type: u32, offset: int, error: Seq<char>) -> Seq<char> {
    "failed to parse record type "@ + decimal(record_type as nat) + " at offset "@ + decimal(
        offset as nat,
    ) + ": "@ + error
}

/// Tells an error in a record.
pub fn record_error_message(record_type: u32, offset: usize, error: &str) -> (message: String)
    ensures
        message@ == record_error(record_type, offset as int, error@),
{
    let mut message = "failed to parse record type ".to_string();
    push_decimal(&mut message, record_type as u128);
    message.append(" at offset ");
    push_decimal(&mut message, offset as u128);
    message.append(": ");
    message.append(error);
    message
}

/// The typed record behind a record's header, with the record named in an error.
pub open spec fn record_in_context(record: RecordModel) -> Result<ParsedModel, Seq<char>> {
    match parsed_record_of(record.header, record.payload) {
        Ok(parsed) => Ok(parsed),
        Err(error) => Err(record_error(record.header.record_type, record.offset, error)),
    }
}

/// Parses a record and names it in an error.
///
/// # Errors
///
/// Returns an error when a supported record payload is malformed.
pub fn parse_record_with_context(record: PerfRecord<'_>) -> (result: Result<ParsedRecord, String>)
    ensures
        outcome(result) == record_in_context(record@),
{
    let kind: u32 = record.header.record_type;
    let offset: usize = record.offset;
    match parse_record(record) {
        Ok(parsed) => Ok(parsed),
        Err(error) => Err(record_error_message(kind, offset, error.as_str())),
    }
}

impl SummaryModel {
    /// The summary of no records.
    pub open spec fn nothing() -> SummaryModel {
        SummaryModel {
            total_records: 0,
            record_counts: Map::empty(),
            comms: Seq::empty(),
            comms_by_pid: Map::empty(),
            comms_by_tid: Map::empty(),
            mmaps: Seq::empty(),
            lost_records: 0,
            table: TableModel { mappings: Seq::empty(), sources: Map::empty() },
            sample_stacks: Seq::empty(),
        }
    }

    /// How many records of a type there were.
    pub open spec fn record_count(self, record_type: u32) -> usize {
        if self.record_counts.contains_key(record_type) {
            self.record_counts[record_type]
        } else {
            0
        }
    }

    /// The summary with one more record of a type counted.
    pub open spec fn counted(self, record_type: u32) -> SummaryModel {
        SummaryModel {
            total_records: self.total_records + 1,
            record_counts: self.record_counts.insert(
                record_type,
                (self.record_count(record_type) + 1) as usize,
            ),
            ..self
        }
    }

    /// The summary with a record's contents taken in.
    pub open spec fn noted(self, record: ParsedModel, layouts: LayoutsModel) -> Result<
        SummaryModel,
        Seq<char>,
    > {
        match record {
            ParsedModel::Comm(record) => Ok(
                SummaryModel {
                    comms: self.comms.push(record.comm),
                    comms_by_pid: self.comms_by_pid.insert(record.pid, record.comm),
                    comms_by_tid: self.comms_by_tid.insert(record.tid, record.comm),
                    ..self
                },
            ),
            ParsedModel::Lost(record) => Ok(
                SummaryModel {
                    lost_records: saturating_sum(self.lost_records, record.lost),
                    ..self
                },
            ),
            ParsedModel::LostSamples(record) => Ok(
                SummaryModel {
                    lost_records: saturating_sum(self.lost_records, record.lost),
                    ..self
                },
            ),
            ParsedModel::Mmap(record) => Ok(
                SummaryModel {
                    mmaps: self.mmaps.push(record.path),
                    table: self.table.with(plain_mapping(record)),
                    ..self
                },
            ),
            ParsedModel::Mmap2(record) => Ok(
                SummaryModel {
                    mmaps: self.mmaps.push(record.path),
                    table: self.table.with(inode_mapping(record, None)),
                    ..self
                },
            ),
            ParsedModel::Mmap2BuildId(record) => Ok(
                SummaryModel {
                    mmaps: self.mmaps.push(record.path),
                    table: self.table.with(build_id_mapping(record)),
                    ..self
                },
            ),
            ParsedModel::Fork(record) => {
                let named = match looked_up(self.comms_by_tid, record.ptid) {
                    Some(comm) => SummaryModel {
                        comms_by_pid: self.comms_by_pid.insert(record.pid, comm),
                        comms_by_tid: self.comms_by_tid.insert(record.tid, comm),
                        ..self
                    },
                    None => self,
                };
                Ok(
                    if record.clone_maps {
                        SummaryModel {
                            table: named.table.inherited(record.ppid, record.pid),
                            ..named
                        }
                    } else {
                        named
                    },
                )
            },
            ParsedModel::Sample(record) => match summarized_sample(
                record.misc,
                record.payload,
                layouts,
            ) {
                Err(error) => Err(error),
                Ok(None) => Ok(self),
                Ok(Some(stack)) => Ok(
                    SummaryModel { sample_stacks: self.sample_stacks.push(stack), ..self },
                ),
            },
            _ => Ok(self),
        }
    }

    /// The summary with one more record taken in.
    pub open spec fn with_record(self, record: RecordModel, layouts: LayoutsModel) -> Result<
        SummaryModel,
        Seq<char>,
    > {
        match record_in_context(record) {
            Err(error) => Err(error),
            Ok(parsed) => match self.counted(record.header.record_type).noted(parsed, layouts) {
                Err(error) => Err(record_error(record.header.record_type, record.offset, error)),
                Ok(summary) => Ok(summary),
            },
        }
    }

    /// The summary with the records from index `from` on taken in.
    pub open spec fn with_records(
        self,
        records: Seq<RecordModel>,
        from: int,
        layouts: LayoutsModel,
    ) -> Result<SummaryModel, Seq<char>>
        decreases records.len() - from,
    {
        if from >= records.len() {
            Ok(self)
        } else {
            match self.with_record(records[from], layouts) {
                Err(error) => Err(error),
                Ok(summary) => summary.with_records(records, from + 1, layouts),
            }
        }
    }
}

/// The summary of a file.
pub open spec fn summary_of(bytes: Seq<u8>) -> Result<SummaryModel, Seq<char>> {
    match header_of(bytes) {
        Err(error) => Err(error),
        Ok(header) => match layouts_of(bytes, header) {
            Err(error) => Err(error),
            Ok(layouts) => match records_of(bytes, header) {
                Err(error) => Err(error),
                Ok(records) => SummaryModel::nothing().with_records(records, 0, layouts),
            },
        },
    }
}

impl PerfSummary {
    /// Whether the mappings are in order and no type was counted more often than all records.
    pub open spec fn wf(&self) -> bool {
        &&& self.mmap_table.wf()
        &&& forall|kind: u32| #[trigger]
            self@.record_counts.contains_key(kind) ==> self@.record_counts[kind]
                <= self.total_records
    }

    /// The summary of no records.
    pub fn new() -> (summary: PerfSummary)
        ensures
            summary.wf(),
            summary@ == SummaryModel::nothing(),
    {
        let summary = PerfSummary {
            total_records: 0,
            record_counts: BTreeMap::new(),
            comms: Vec::new(),
            comms_by_pid: BTreeMap::new(),
            comms_by_tid: BTreeMap::new(),
            mmaps: Vec::new(),
            lost_records: 0,
            mmap_table: MmapTable::new(),
            sample_stacks: Vec::new(),
        };
        assert(summary@ =~= SummaryModel::nothing());
        summary
    }

    /// How many records of a type there were.
    #[must_use]
    pub fn record_count(&self, record_type: u32) -> (count: usize)
        ensures
            count == self@.record_count(record_type),
    {
        match self.record_counts.get(&record_type) {
            Some(count) => *count,
            None => 0,
        }
    }

    fn count_record(&mut self, record_type: u32)
        requires
            old(self).wf(),
            old(self).total_records < usize::MAX,
        ensures
            final(self).wf(),
            final(self)@ == old(self)@.counted(record_type),
    {
        let ghost before = *self;
        let count: usize = self.record_count(record_type);
        assert(count <= self.total_records);
        self.total_records += 1;
        self.record_counts.insert(record_type, count + 1);
        assert forall|kind: u32| #[trigger]
            self@.record_counts.contains_key(kind) implies self@.record_counts[kind]
            <= self.total_records by {
            if kind != record_type {
                assert(before@.record_counts.contains_key(kind));
            }
        }
    }

    fn note_sample(&mut self, stack: Option<PerfSampleStack>)
        requires
            old(self).wf(),
        ensures
            final(self).wf(),
            final(self)@ == (match stack_view(stack) {
                Some(stack) => SummaryModel {
                    sample_stacks: old(self)@.sample_stacks.push(stack),
                    ..old(self)@
                },
                None => old(self)@,
            }),
    {
        let ghost before = self@;
        if let Some(stack) = stack {
            self.sample_stacks.push(stack);
            assert(views(self.sample_stacks@) =~= before.sample_stacks.push(stack@));
        }
    }

    fn note_path(&mut self, path: String)
        requires
            old(self).wf(),
        ensures
            final(self).wf(),
            final(self)@ == (SummaryModel { mmaps: old(self)@.mmaps.push(path@), ..old(self)@ }),
    {
        let ghost before = self@;
        self.mmaps.push(path);
        assert(views(self.mmaps@) =~= before.mmaps.push(path@));
    }

    /// Takes a record's contents in.
    ///
    /// # Errors
    ///
    /// Returns an error when the record is a sample that cannot be read.
    fn note_record(&mut self, record: ParsedRecord, layouts: &SampleLayouts) -> (result: Result<
        (),
        String,
    >)
        requires
            old(self).wf(),
            layouts@.wf(),
        ensures
            final(self).wf(),
            final(self).total_records == old(self).total_records,
            match result {
                Ok(_) => old(self)@.noted(record@, layouts@) == Ok::<SummaryModel, Seq<char>>(
                    final(self)@,
                ),
                Err(error) => old(self)@.noted(record@, layouts@) == Err::<
                    SummaryModel,
                    Seq<char>,
                >(error@),
            },
    {
        broadcast use texts_of_insert;

        let ghost before = self@;
        match record {
            ParsedRecord::Comm(record) => {
                self.comms_by_pid.insert(record.pid, record.comm.clone());
                self.comms_by_tid.insert(record.tid, record.comm.clone());
                self.comms.push(record.comm);
                assert(views(self.comms@) =~= before.comms.push(record.comm@));
            },
            ParsedRecord::Lost(record) => {
                self.lost_records = self.lost_records.saturating_add(record.lost);
            },
            ParsedRecord::LostSamples(record) => {
                self.lost_records = self.lost_records.saturating_add(record.lost);
            },
            ParsedRecord::Mmap(record) => {
                self.note_path(record.path.clone());
                self.mmap_table.insert_mmap(record);
            },
            ParsedRecord::Mmap2(record) => {
                self.note_path(record.path.clone());
                self.mmap_table.insert_mmap2(record);
            },
            ParsedRecord::Mmap2BuildId(record) => {
                self.note_path(record.path.clone());
                self.mmap_table.insert_mmap2_build_id(record);
            },
            ParsedRecord::Fork(record) => {
                let comm: Option<String> = match self.comms_by_tid.get(&record.ptid) {
                    Some(comm) => Some(comm.clone()),
                    None => None,
                };
                if let Some(comm) = comm {
                    self.comms_by_pid.insert(record.pid, comm.clone());
                    self.comms_by_tid.insert(record.tid, comm);
                }
                if record.clone_maps {
                    self.mmap_table.clone_pid_mappings(record.ppid, record.pid);
                }
            },
            ParsedRecord::Sample(record) => {
                let stack = parse_sample_for_summary(
                    record.misc,
                    record.payload.as_slice(),
                    layouts,
                )?;
                self.note_sample(stack);
            },
            _ => {},
        }
        Ok(())
    }
}

/// Summarizes record counts and parsed sample callchains from `perf.data`.
///
/// # Errors
///
/// Returns an error when the file header, attr section, record stream, or a
/// supported record payload is malformed.
pub fn summarize_perfdata(bytes: &[u8]) -> (result: Result<PerfSummary, String>)
    ensures
        outcome(result) == summary_of(bytes@),
        result matches Ok(summary) ==> summary.wf(),
{
    let header = parse_header(bytes)?;
    let layouts = sample_layouts(bytes, header)?;
    let records = iter_records(bytes, header)?;
    let mut summary = PerfSummary::new();
    let ghost all = views(records@);
    let ghost expected = SummaryModel::nothing().with_records(all, 0, layouts@);
    let total: usize = records.len();
    let mut index: usize = 0;
    while index < records.len()
        invariant
            index <= records@.len(),
            total == records@.len(),
            summary.wf(),
            layouts@.wf(),
            summary.total_records == index,
            all == views(records@),
            expected == summary@.with_records(all, index as int, layouts@),
            summary_of(bytes@) == expected,
        decreases records@.len() - index,
    {
        let record = records[index];
        assert(all[index as int] == record@);
        let kind: u32 = record.header.record_type;
        let offset: usize = record.offset;
        summary.count_record(kind);
        let parsed = parse_record_with_context(record)?;
        match summary.note_record(parsed, &layouts) {
            Ok(_) => {},
            Err(error) => return Err(record_error_message(kind, offset, error.as_str())),
        }
        index += 1;
    }
    Ok(summary)
}

// ---------------------------------------------------------------------------
// Laws
// ---------------------------------------------------------------------------

/// How many records from index `from` on have a type.
pub open spec fn records_of_type(records: Seq<RecordModel>, record_type: u32, from: int) -> int
    decreases records.len() - from,
{
    if from >= records.len() {
        0
    } else {
        (if records[from].header.record_type == record_type {
            1int
        } else {
            0
        }) + records_of_type(records, record_type, from + 1)
    }
}

proof fn counts_go_on(
    summary: SummaryModel,
    records: Seq<RecordModel>,
    from: int,
    layouts: LayoutsModel,
    record_type: u32,
)
    requires
        0 <= from <= records.len(),
        summary.record_count(record_type) + (records.len() - from) <= usize::MAX,
    ensures
        summary.with_records(records, from, layouts) matches Ok(after) ==> {
            &&& after.total_records == summary.total_records + (records.len() - from)
            &&& after.record_count(record_type) == summary.record_count(record_type)
                + records_of_type(records, record_type, from)
        },
    decreases records.len() - from,
{
    if from < records.len() {
        let record = records[from];
        if let Ok(next) = summary.with_record(record, layouts) {
            let counted = summary.counted(record.header.record_type);
            assert(next.total_records == counted.total_records);
            assert(next.record_counts == counted.record_counts);
            counts_go_on(next, records, from + 1, layouts, record_type);
        }
    }
}

/// A summary counts every record, and every record under its type.
pub proof fn every_record_is_counted(
    records: Seq<RecordModel>,
    layouts: LayoutsModel,
    record_type: u32,
)
    requires
        records.len() <= usize::MAX,
    ensures
        SummaryModel::nothing().with_records(records, 0, layouts) matches Ok(summary) ==> {
            &&& summary.total_records == records.len()
            &&& summary.record_count(record_type) == records_of_type(records, record_type, 0)
        },
{
    counts_go_on(SummaryModel::nothing(), records, 0, layouts, record_type);
}

/// A name that is recorded is listed behind those before it, and is from then on the name of its
/// thread and its process; the names of others stay.
pub proof fn names_are_noted(
    summary: SummaryModel,
    record: CommModel,
    layouts: LayoutsModel,
    other: u32,
)
    ensures
        summary.noted(ParsedModel::Comm(record), layouts) matches Ok(after) && {
            &&& after.comms == summary.comms + seq![record.comm]
            &&& looked_up(after.comms_by_tid, record.tid) == Some(record.comm)
            &&& looked_up(after.comms_by_pid, record.pid) == Some(record.comm)
            &&& other != record.tid ==> looked_up(after.comms_by_tid, other) == looked_up(
                summary.comms_by_tid,
                other,
            )
            &&& other != record.pid ==> looked_up(after.comms_by_pid, other) == looked_up(
                summary.comms_by_pid,
                other,
            )
        },
{
    assert(summary.comms.push(record.comm) =~= summary.comms + seq![record.comm]);
}

/// A forked thread and its process are called as the thread that forked them, where that one has
/// a name; other names stay, and nothing is listed.
pub proof fn forked_names_are_noted(
    summary: SummaryModel,
    record: ForkRecord,
    layouts: LayoutsModel,
    other: u32,
)
    ensures
        summary.noted(ParsedModel::Fork(record), layouts) matches Ok(after) && {
            &&& after.comms == summary.comms
            &&& after.sample_stacks == summary.sample_stacks
            &&& summary.comms_by_tid.contains_key(record.ptid) ==> looked_up(
                after.comms_by_tid,
                record.tid,
            ) == Some(summary.comms_by_tid[record.ptid]) && looked_up(
                after.comms_by_pid,
                record.pid,
            ) == Some(summary.comms_by_tid[record.ptid])
            &&& !summary.comms_by_tid.contains_key(record.ptid) ==> after.comms_by_tid
                == summary.comms_by_tid && after.comms_by_pid == summary.comms_by_pid
            &&& other != record.tid ==> looked_up(after.comms_by_tid, other) == looked_up(
                summary.comms_by_tid,
                other,
            )
            &&& other != record.pid ==> looked_up(after.comms_by_pid, other) == looked_up(
                summary.comms_by_pid,
                other,
            )
        },
{
}

/// Lost records and lost samples add up, as far as there are numbers for it, and change nothing
/// else.
pub proof fn losses_add_up(
    summary: SummaryModel,
    records: LostRecord,
    samples: LostSamplesRecord,
    layouts: LayoutsModel,
)
    ensures
        summary.noted(ParsedModel::Lost(records), layouts) matches Ok(after) && after == (
        SummaryModel { lost_records: after.lost_records, ..summary }) && after.lost_records == (
        if summary.lost_records + records.lost > u64::MAX {
            u64::MAX as int
        } else {
            summary.lost_records + records.lost
        }),
        summary.noted(ParsedModel::LostSamples(samples), layouts) matches Ok(after) && after == (
        SummaryModel { lost_records: after.lost_records, ..summary }) && after.lost_records == (
        if summary.lost_records + samples.lost > u64::MAX {
            u64::MAX as int
        } else {
            summary.lost_records + samples.lost
        }),
{
}

/// A sample is kept behind those before it, with the frames of its callchain, its period, and how
/// much of its registers and its stack was captured.
pub proof fn samples_are_kept_in_order(
    summary: SummaryModel,
    record: SamplePayloadModel,
    layouts: LayoutsModel,
    event: int,
    sample: CallchainModel,
)
    requires
        layouts.event_for(record.payload) == Ok::<Option<int>, Seq<char>>(Some(event)),
        sample_callchain_of(record.payload, layouts.events[event].layout) == Ok::<
            Option<CallchainModel>,
            Seq<char>,
        >(Some(sample)),
    ensures
        summary.noted(ParsedModel::Sample(record), layouts) matches Ok(after) && {
            let kept = after.sample_stacks.last();
            &&& after.sample_stacks.drop_last() == summary.sample_stacks
            &&& after.sample_stacks.len() == summary.sample_stacks.len() + 1
            &&& kept.misc == record.misc
            &&& kept.pid == sample.pid && kept.tid == sample.tid
            &&& kept.period == sample.period
            &&& kept.callchain == sample.frames
            &&& kept.has_user_stack <==> sample.user_stack is Some
            &&& sample.user_stack matches Some(stack) ==> kept.user_stack_size == stack.bytes.len()
                && kept.user_stack_dynamic_size == stack.dynamic_size
            &&& sample.user_regs matches Some(regs) ==> kept.user_register_count
                == regs.values.len()
        },
{
    if let Ok(after) = summary.noted(ParsedModel::Sample(record), layouts) {
        assert(after.sample_stacks.drop_last() =~= summary.sample_stacks);
    }
}

} // verus!
