//! Recordings folded into stacks with counts, and recordings as text.

use vstd::prelude::*;
use vstd::seq_lib::{commutative_foldl, lemma_fold_left_permutation};
use vstd::utf8::{encode_utf8, valid_utf8};

use crate::perfdata::features::{
    arch_from, file_build_ids_of, header_arch_of, header_build_ids_by_filename,
    parse_header_arch, perf_arch_from_header,
};
use crate::perfdata::fold_counts::{
    additions_commute, line_bytes, lists_lines, totals, with_line, write_fold_counts,
    writes_lines, written_from, FoldCounts, LineModel,
};
use crate::perfdata::header::{header_of, parse_header, PerfHeader};
use crate::perfdata::layouts::{layouts_of, sample_layouts, LayoutsModel, SampleLayouts};
use crate::perfdata::mappings::{MmapTable, TableModel};
use crate::perfdata::opening::{open_file, opening_of};
use crate::perfdata::order::{record_time, OrderedRecordQueue, PendingModel, QueueModel};
use crate::perfdata::raw_stack::{
    lists_entries, RawStackAccumulator, RawStackEntryRef, StackKey,
};
use crate::perfdata::records::{
    records_from, ParsedModel, ParsedRecord, PerfRecord, RecordModel, PERF_RECORD_FINISHED_ROUND,
};
use crate::perfdata::render::{
    extend_symbol_mappings_for_stack, mapped_views, stack_line, symbols_view, symbols_wf,
    wanting_frames, FoldFrameResolver, FoldedRenderBuffers, MappedModel, SymbolPrefetchBatches,
};
use crate::perfdata::stream::{
    data_section, frame_record, framed, section_of, RecordBatch, RecordStream,
    StreamModel,
};
use crate::perfdata::summary::{
    parse_record_with_context, record_error, record_error_message, record_in_context,
};
use crate::perfdata::unwinding::{FoldFrame, ObjectStore, ObjectsModel};
use crate::symbols::{SymbolTable, SymbolsModel};
use crate::text::{decimal, text_from_utf8, views};

pub use crate::perfdata::accumulate::{FoldAccumulator, FoldModel, FoldOptions};
pub use crate::perfdata::summary::{
    summarize_perfdata, PerfSampleStack, PerfSummary,
};

use crate::totals::total;

verus! {

broadcast use vstd::std_specs::control_flow::group_control_flow_axioms;

// ---------------------------------------------------------------------------
// From stacks to lines
// ---------------------------------------------------------------------------

/// A stack with its count.
pub type StackCount = (StackKey<FoldFrame>, u64);

/// Whether a list holds every counted stack once.
pub open spec fn lists_counts(
    list: Seq<StackCount>,
    stacks: Map<StackKey<FoldFrame>, u64>,
) -> bool {
    &&& list.no_duplicates()
    &&& forall|entry: StackCount| #[trigger]
        list.contains(entry) <==> stacks.contains_key(entry.0) && stacks[entry.0] == entry.1
}

/// The counted stacks in some order.
pub open spec fn listing(stacks: Map<StackKey<FoldFrame>, u64>) -> Seq<StackCount> {
    choose|list: Seq<StackCount>| lists_counts(list, stacks)
}

/// How stacks are rendered: in the light of mappings and symbols.
#[verifier::ext_equal]
pub struct RenderModel {
    pub table: TableModel,
    pub symbols: Option<SymbolsModel>,
    pub inline: bool,
}

/// Counts of lines with that of one more stack; a stack without a line adds nothing.
pub open spec fn with_stack_line(
    counts: Map<Seq<u8>, u64>,
    entry: StackCount,
    render: RenderModel,
) -> Map<Seq<u8>, u64> {
    let line = stack_line(
        render.table,
        entry.0.0,
        entry.0.1,
        entry.0.2,
        render.symbols,
        render.inline,
    );
    if line.len() == 0 {
        counts
    } else {
        with_line(counts, encode_utf8(line), entry.1)
    }
}

/// Counts of lines with those of stacks.
pub open spec fn with_stack_lines(
    counts: Map<Seq<u8>, u64>,
    list: Seq<StackCount>,
    render: RenderModel,
) -> Map<Seq<u8>, u64> {
    list.fold_left(
        counts,
        |counts: Map<Seq<u8>, u64>, entry: StackCount| with_stack_line(counts, entry, render),
    )
}

/// Counts of lines with those of all counted stacks.
pub open spec fn drained(
    counts: Map<Seq<u8>, u64>,
    stacks: Map<StackKey<FoldFrame>, u64>,
    render: RenderModel,
) -> Map<Seq<u8>, u64> {
    with_stack_lines(counts, listing(stacks), render)
}

/// The order in which stacks are rendered makes no difference.
pub proof fn render_order_is_free(
    counts: Map<Seq<u8>, u64>,
    left: Seq<StackCount>,
    right: Seq<StackCount>,
    stacks: Map<StackKey<FoldFrame>, u64>,
    render: RenderModel,
)
    requires
        lists_counts(left, stacks),
        lists_counts(right, stacks),
    ensures
        with_stack_lines(counts, left, render) == with_stack_lines(counts, right, render),
{
    broadcast use vstd::seq_lib::group_to_multiset_ensures;

    assert forall|entry: StackCount| left.to_multiset().count(entry) == right.to_multiset().count(
        entry,
    ) by {
        left.lemma_multiset_has_no_duplicates();
        right.lemma_multiset_has_no_duplicates();
        assert(left.contains(entry) <==> right.contains(entry));
    }
    assert(left.to_multiset() =~= right.to_multiset());
    let f = |counts: Map<Seq<u8>, u64>, entry: StackCount| with_stack_line(counts, entry, render);
    assert forall|a: StackCount, b: StackCount, start: Map<Seq<u8>, u64>| #[trigger]
        f(f(start, a), b) == f(f(start, b), a) by {
        let first = stack_line(
            render.table,
            a.0.0,
            a.0.1,
            a.0.2,
            render.symbols,
            render.inline,
        );
        let second = stack_line(
            render.table,
            b.0.0,
            b.0.1,
            b.0.2,
            render.symbols,
            render.inline,
        );
        additions_commute(start, encode_utf8(first), a.1, encode_utf8(second), b.1);
    }
    assert(commutative_foldl(f));
    lemma_fold_left_permutation(left, right, f, counts);
}

/// The stacks of entries.
spec fn entry_counts(entries: Seq<RawStackEntryRef<'_, FoldFrame>>) -> Seq<StackCount> {
    Seq::new(entries.len(), |i: int| (entries[i].key(), entries[i].weight()))
}

proof fn entries_list_counts(
    entries: Seq<RawStackEntryRef<'_, FoldFrame>>,
    stacks: Map<StackKey<FoldFrame>, u64>,
)
    requires
        lists_entries(entries, stacks),
    ensures
        lists_counts(entry_counts(entries), stacks),
{
    let list = entry_counts(entries);
    assert(list.no_duplicates()) by {
        assert forall|i: int, j: int| 0 <= i < list.len() && 0 <= j < list.len() && i != j implies
            list[i] != list[j] by {
            if i < j {
                assert(entries[i].key() != entries[j].key());
            } else {
                assert(entries[j].key() != entries[i].key());
            }
        }
    }
    assert forall|entry: StackCount| #[trigger]
        list.contains(entry) <==> stacks.contains_key(entry.0) && stacks[entry.0] == entry.1 by {
        if list.contains(entry) {
            let i = choose|i: int| 0 <= i < list.len() && list[i] == entry;
            assert(entries[i].wf());
            assert(stacks.contains_pair(entries[i].key(), entries[i].weight()));
        }
        if stacks.contains_key(entry.0) && stacks[entry.0] == entry.1 {
            assert(stacks.dom().contains(entry.0));
            let i = choose|i: int| 0 <= i < entries.len() && (#[trigger] entries[i]).key() == entry.0;
            assert(entries[i].wf());
            assert(stacks.contains_pair(entries[i].key(), entries[i].weight()));
            assert(list[i] == entry);
        }
    }
}

/// Adds the lines of all counted stacks to the counts of lines.
pub fn accumulate_fold_counts(
    raw_stacks: &RawStackAccumulator<FoldFrame>,
    mmap_table: &MmapTable,
    counts: &mut FoldCounts,
    symbols: Option<&SymbolTable>,
    inline: bool,
)
    requires
        raw_stacks.wf(),
        mmap_table.wf(),
        symbols_wf(symbols),
        old(counts).wf(),
    ensures
        final(counts).wf(),
        totals(final(counts)@) == drained(
            totals(old(counts)@),
            raw_stacks@,
            (RenderModel { table: mmap_table.model(), symbols: symbols_view(symbols), inline }),
        ),
{
    let entries = raw_stacks.sorted_entries();
    let ghost render = RenderModel {
        table: mmap_table.model(),
        symbols: symbols_view(symbols),
        inline,
    };
    let ghost start = totals(counts@);
    let ghost list = entry_counts(entries@);
    proof {
        entries_list_counts(entries@, raw_stacks@);
        assert(lists_counts(listing(raw_stacks@), raw_stacks@));
        render_order_is_free(start, list, listing(raw_stacks@), raw_stacks@, render);
        assert(list.subrange(0, 0) =~= Seq::empty());
    }
    counts.reserve_first_drain(entries.len());
    let resolver = FoldFrameResolver::new(mmap_table, inline);
    let mut callchain: Vec<FoldFrame> = Vec::new();
    let mut buffers = FoldedRenderBuffers::new();
    let mut index: usize = 0;
    while index < entries.len()
        invariant
            index <= entries@.len(),
            list == entry_counts(entries@),
            lists_entries(entries@, raw_stacks@),
            mmap_table.wf(),
            symbols_wf(symbols),
            counts.wf(),
            buffers.wf(),
            resolver.mmap_table == mmap_table,
            resolver.inline == inline,
            render == (RenderModel {
                table: mmap_table.model(),
                symbols: symbols_view(symbols),
                inline,
            }),
            totals(counts@) == with_stack_lines(start, list.subrange(0, index as int), render),
        decreases entries@.len() - index,
    {
        let entry = &entries[index];
        assert(entries@[index as int].wf());
        let frames = entry.callchain(&mut callchain);
        resolver.render_folded_stack_for_stack(
            entry.pid(),
            entry.comm(),
            frames,
            symbols,
            &mut buffers,
        );
        if buffers.rendered.as_str().unicode_len() > 0 {
            counts.add_rendered(buffers.rendered.as_str(), entry.count());
        }
        index += 1;
        proof {
            let done = list.subrange(0, index as int);
            assert(done.drop_last() =~= list.subrange(0, index - 1));
            assert(done.last() == list[index - 1]);
        }
    }
    assert(list.subrange(0, index as int) =~= list);
}

/// The mappings whose symbols are asked for, after the first `count` stacks.
pub open spec fn wanting_stacks(
    list: Seq<MappedModel>,
    table: TableModel,
    stacks: Seq<StackCount>,
    count: int,
) -> Seq<MappedModel>
    decreases count,
{
    if count <= 0 {
        list
    } else {
        let key = stacks[count - 1].0;
        wanting_frames(
            wanting_stacks(list, table, stacks, count - 1),
            table,
            key.0,
            key.2,
            key.2.len() as int,
        )
    }
}

/// What entries of counted stacks stand for.
pub closed spec fn counts_of(entries: Seq<RawStackEntryRef<'_, FoldFrame>>) -> Seq<StackCount> {
    entry_counts(entries)
}

/// Asks for the symbols of all frames of some stacks, each once.
pub fn prefetch_symbols<'a>(
    raw_stacks: &Vec<RawStackEntryRef<'_, FoldFrame>>,
    mmap_table: &'a MmapTable,
    inline: bool,
) -> (batches: SymbolPrefetchBatches<'a>)
    requires
        mmap_table.wf(),
        forall|i: int| 0 <= i < raw_stacks@.len() ==> (#[trigger] raw_stacks@[i]).wf(),
    ensures
        batches.wf(),
        mapped_views(batches.full_mappings@) == if inline {
            wanting_stacks(
                Seq::empty(),
                mmap_table.model(),
                counts_of(raw_stacks@),
                raw_stacks@.len() as int,
            )
        } else {
            Seq::empty()
        },
        mapped_views(batches.base_mappings@) == if inline {
            Seq::empty()
        } else {
            wanting_stacks(
                Seq::empty(),
                mmap_table.model(),
                counts_of(raw_stacks@),
                raw_stacks@.len() as int,
            )
        },
{
    let mut batches = SymbolPrefetchBatches::new();
    let ghost list = entry_counts(raw_stacks@);
    assert(mapped_views(batches.full_mappings@) =~= Seq::empty());
    assert(mapped_views(batches.base_mappings@) =~= Seq::empty());
    let mut callchain: Vec<FoldFrame> = Vec::new();
    let mut index: usize = 0;
    while index < raw_stacks.len()
        invariant
            index <= raw_stacks@.len(),
            list == entry_counts(raw_stacks@),
            mmap_table.wf(),
            batches.wf(),
            forall|i: int| 0 <= i < raw_stacks@.len() ==> (#[trigger] raw_stacks@[i]).wf(),
            mapped_views(batches.full_mappings@) == if inline {
                wanting_stacks(Seq::empty(), mmap_table.model(), list, index as int)
            } else {
                Seq::empty()
            },
            mapped_views(batches.base_mappings@) == if inline {
                Seq::empty()
            } else {
                wanting_stacks(Seq::empty(), mmap_table.model(), list, index as int)
            },
        decreases raw_stacks@.len() - index,
    {
        let entry = &raw_stacks[index];
        let frames = entry.callchain(&mut callchain);
        extend_symbol_mappings_for_stack(entry.pid(), frames, mmap_table, &mut batches, inline);
        index += 1;
    }
    batches
}

// ---------------------------------------------------------------------------
// Lines are text
// ---------------------------------------------------------------------------

/// Whether all counted lines are text.
pub open spec fn all_text(counts: Map<Seq<u8>, u64>) -> bool {
    forall|bytes: Seq<u8>| #[trigger] counts.contains_key(bytes) ==> valid_utf8(bytes)
}

proof fn lines_stay_text(counts: Map<Seq<u8>, u64>, list: Seq<StackCount>, render: RenderModel)
    requires
        all_text(counts),
    ensures
        all_text(with_stack_lines(counts, list, render)),
    decreases list.len(),
{
    if list.len() > 0 {
        lines_stay_text(counts, list.drop_last(), render);
        let before = with_stack_lines(counts, list.drop_last(), render);
        let entry = list.last();
        let line = stack_line(
            render.table,
            entry.0.0,
            entry.0.1,
            entry.0.2,
            render.symbols,
            render.inline,
        );
        vstd::utf8::encode_utf8_valid_utf8(line);
        let after = with_stack_lines(counts, list, render);
        assert(after == with_stack_line(before, entry, render));
        assert forall|bytes: Seq<u8>| #[trigger] after.contains_key(bytes) implies valid_utf8(
            bytes,
        ) by {
            if !before.contains_key(bytes) {
                assert(bytes == encode_utf8(line));
            }
        }
    }
}

/// Lines of text are written as text.
proof fn text_is_written(lines: Seq<LineModel>, from: int)
    requires
        0 <= from <= lines.len(),
        forall|i: int| 0 <= i < lines.len() ==> valid_utf8((#[trigger] lines[i]).0),
    ensures
        written_from(lines, from) matches Ok(written) && valid_utf8(written),
    decreases lines.len() - from,
{
    if from < lines.len() {
        text_is_written(lines, from + 1);
        let line = lines[from];
        let rest = written_from(lines, from + 1)->Ok_0;
        let digits = encode_utf8(decimal(line.1 as nat));
        vstd::utf8::encode_utf8_valid_utf8(decimal(line.1 as nat));
        ascii_byte_is_text(0x20);
        ascii_byte_is_text(0x0a);
        vstd::utf8::valid_utf8_concat(line.0, seq![0x20u8]);
        vstd::utf8::valid_utf8_concat(line.0 + seq![0x20u8], digits);
        vstd::utf8::valid_utf8_concat(line.0 + seq![0x20u8] + digits, seq![0x0au8]);
        vstd::utf8::valid_utf8_concat(line_bytes(line), rest);
    } else {
        assert(valid_utf8(Seq::<u8>::empty()));
    }
}

proof fn ascii_byte_is_text(byte: u8)
    requires
        byte < 0x80,
    ensures
        valid_utf8(seq![byte]),
{
    let chars = seq![byte as char];
    vstd::utf8::encode_utf8_valid_utf8(chars);
    vstd::utf8::is_ascii_chars_encode_utf8(chars);
    assert(encode_utf8(chars) =~= seq![byte]);
}

/// Whether a text is that of all counted lines, in byte order.
pub open spec fn is_folded_text(text: Seq<char>, counts: Map<Seq<u8>, u64>) -> bool {
    writes_lines(Ok(encode_utf8(text)), counts)
}

/// Renders counted lines of text.
fn folded_text(counts: FoldCounts) -> (text: String)
    requires
        counts.wf(),
        all_text(totals(counts@)),
    ensures
        is_folded_text(text@, totals(counts@)),
{
    let mut written: Vec<u8> = Vec::new();
    let ghost all = totals(counts@);
    let result = write_fold_counts(counts, &mut written);
    proof {
        assert(written@.subrange(0, 0) =~= Seq::empty());
        assert forall|lines: Seq<LineModel>| #[trigger] lists_lines(lines, all) implies (
        written_from(lines, 0) matches Ok(bytes) && valid_utf8(bytes)) by {
            assert forall|i: int| 0 <= i < lines.len() implies valid_utf8(
                (#[trigger] lines[i]).0,
            ) by {
                assert(lines.contains(lines[i]));
            }
            text_is_written(lines, 0);
        }
        if result is Err {
            let error = result->Err_0;
            let lines = choose|lines: Seq<LineModel>| #[trigger]
                lists_lines(lines, all) && Err::<Seq<u8>, Seq<char>>(error@) == written_from(
                    lines,
                    0,
                );
            assert(lists_lines(lines, all));
            assert(false);
        }
        assert(written@.subrange(0, written@.len() as int) =~= written@);
        assert(writes_lines(Ok(written@), all));
        assert(valid_utf8(written@)) by {
            let lines = choose|lines: Seq<LineModel>| #[trigger]
                lists_lines(lines, all) && Ok::<Seq<u8>, Seq<char>>(written@) == written_from(
                    lines,
                    0,
                );
            assert(lists_lines(lines, all));
        }
        vstd::utf8::decode_utf8_encode_utf8(written@);
    }
    match text_from_utf8(written.as_slice()) {
        Ok(text) => text,
        Err(_) => String::new(),
    }
}

// ---------------------------------------------------------------------------
// Folding a file in memory
// ---------------------------------------------------------------------------

/// What a file says before its records: layouts, build ids and machine.
#[verifier::ext_equal]
pub struct PreludeModel {
    pub header: PerfHeader,
    pub layouts: LayoutsModel,
    pub build_ids: Map<Seq<char>, Seq<u8>>,
    pub arch: crate::perfdata::unwind::PerfArch,
}

/// What a file says before its records.
pub open spec fn prelude_of(bytes: Seq<u8>) -> Result<PreludeModel, Seq<char>> {
    match header_of(bytes) {
        Err(error) => Err(error),
        Ok(header) => match layouts_of(bytes, header) {
            Err(error) => Err(error),
            Ok(layouts) => match file_build_ids_of(bytes) {
                Err(error) => Err(error),
                Ok(build_ids) => match header_arch_of(bytes, header) {
                    Err(error) => Err(error),
                    Ok(arch) => Ok(
                        PreludeModel { header, layouts, build_ids, arch: arch_from(arch) },
                    ),
                },
            },
        },
    }
}

/// What a file says before its records.
pub struct FilePrelude {
    pub header: PerfHeader,
    pub layouts: SampleLayouts,
    pub accumulator: FoldAccumulator,
}

/// Reads what a file says before its records.
///
/// # Errors
///
/// Returns an error when the header, the attributes or the features cannot be read.
pub fn read_prelude(bytes: &[u8]) -> (result: Result<FilePrelude, String>)
    ensures
        match (result, prelude_of(bytes@)) {
            (Ok(prelude), Ok(model)) => {
                &&& prelude.header == model.header
                &&& prelude.layouts@ == model.layouts
                &&& prelude.layouts@.wf()
                &&& prelude.accumulator.wf()
                &&& prelude.accumulator@ == FoldModel::nothing(model.build_ids, model.arch)
            },
            (Err(error), Err(told)) => error@ == told,
            _ => false,
        },
{
    let header = parse_header(bytes)?;
    let layouts = sample_layouts(bytes, header)?;
    let build_ids = header_build_ids_by_filename(bytes)?;
    let arch = parse_header_arch(bytes, &header)?;
    let accumulator = FoldAccumulator::new(build_ids, perf_arch_from_header(&arch));
    Ok(FilePrelude { header, layouts, accumulator })
}

/// A record and its time.
#[verifier::ext_equal]
pub struct TimedModel {
    pub record: RecordModel,
    pub time: Option<u64>,
}

/// The records from `offset` on with their times.
pub open spec fn timed_from(
    bytes: Seq<u8>,
    offset: int,
    end: int,
    layouts: LayoutsModel,
) -> Result<Seq<TimedModel>, Seq<char>>
    decreases end - offset,
{
    if offset >= end {
        Ok(Seq::empty())
    } else {
        match framed(bytes, offset, end) {
            Err(error) => Err(error),
            Ok(record) => match layouts.time_of(record.header.record_type, record.payload) {
                Err(error) => Err(error),
                Ok(time) => if record.header.size < 8 || offset + record.header.size > end {
                    Err(Seq::empty())
                } else {
                    crate::text::after(
                        seq![TimedModel { record, time }],
                        timed_from(bytes, offset + record.header.size, end, layouts),
                    )
                },
            },
        }
    }
}

/// A record and its time.
#[derive(Clone, Copy, Debug)]
pub struct TimedRecord<'a> {
    pub record: PerfRecord<'a>,
    pub time: Option<u64>,
}

impl<'a> View for TimedRecord<'a> {
    type V = TimedModel;

    open spec fn view(&self) -> TimedModel {
        TimedModel { record: self.record@, time: self.time }
    }
}

/// Reads all records of a data section with their times.
///
/// # Errors
///
/// Returns an error when a record does not fit in the section, or its time cannot be read.
pub fn timed_records<'a>(
    bytes: &'a [u8],
    start: usize,
    end: usize,
    sample_layouts: &SampleLayouts,
) -> (result: Result<Vec<TimedRecord<'a>>, String>)
    requires
        start <= end <= bytes.len(),
        sample_layouts@.wf(),
    ensures
        match result {
            Ok(timed) => timed_from(bytes@, start as int, end as int, sample_layouts@) == Ok::<
                Seq<TimedModel>,
                Seq<char>,
            >(views(timed@)),
            Err(error) => timed_from(bytes@, start as int, end as int, sample_layouts@) == Err::<
                Seq<TimedModel>,
                Seq<char>,
            >(error@),
        },
{
    let mut timed: Vec<TimedRecord<'a>> = Vec::new();
    let mut offset: usize = start;
    let ghost whole = timed_from(bytes@, start as int, end as int, sample_layouts@);
    proof {
        assert(views(timed@) =~= Seq::empty());
        if let Ok(all) = whole {
            assert(views(timed@) + all =~= all);
        }
    }
    while offset < end
        invariant
            offset <= end <= bytes.len(),
            sample_layouts@.wf(),
            whole == timed_from(bytes@, start as int, end as int, sample_layouts@),
            whole == match timed_from(bytes@, offset as int, end as int, sample_layouts@) {
                Err(error) => Err(error),
                Ok(rest) => Ok(views(timed@) + rest),
            },
        decreases end - offset,
    {
        let record = frame_record(bytes, offset, end)?;
        let time: Option<u64> = record_time(&record, sample_layouts)?;
        let ghost before = views(timed@);
        let item = TimedRecord { record, time };
        timed.push(item);
        offset = offset + record.header.size as usize;
        proof {
            assert(views(timed@) =~= before.push(item@));
            if let Ok(rest) = timed_from(bytes@, offset as int, end as int, sample_layouts@) {
                assert(before + (seq![item@] + rest) =~= views(timed@) + rest);
            }
        }
    }
    assert(views(timed@) + Seq::<TimedModel>::empty() =~= views(timed@));
    Ok(timed)
}

/// What records have told, and which wait.
#[verifier::ext_equal]
pub struct GatherModel {
    pub fold: FoldModel,
    pub queue: QueueModel,
}

/// What is needed to apply records.
#[verifier::ext_equal]
pub struct SetupModel {
    pub layouts: LayoutsModel,
    pub options: FoldOptions,
    pub objects: ObjectsModel,
}

impl FoldModel {
    /// After records.
    pub open spec fn after(self, records: Seq<ParsedModel>, setup: SetupModel) -> Result<
        FoldModel,
        Seq<char>,
    > {
        self.applied_all(records, 0, setup.layouts, setup.options, setup.objects)
    }
}

impl GatherModel {
    /// After one more record, the one at `index`.
    pub open spec fn stepped(self, timed: TimedModel, index: int, setup: SetupModel) -> Result<
        GatherModel,
        Seq<char>,
    > {
        let record = timed.record;
        if record.header.record_type == PERF_RECORD_FINISHED_ROUND {
            match self.fold.after(self.queue.round(), setup) {
                Err(error) => Err(error),
                Ok(fold) => Ok(GatherModel { fold, queue: self.queue.after_round() }),
            }
        } else {
            match record_in_context(record) {
                Err(error) => Err(error),
                Ok(parsed) => match timed.time {
                    Some(time) => Ok(
                        GatherModel {
                            queue: self.queue.queued(PendingModel { index, time, record: parsed }),
                            ..self
                        },
                    ),
                    None => match self.fold.applied(
                        parsed,
                        setup.layouts,
                        setup.options,
                        setup.objects,
                    ) {
                        Err(error) => Err(
                            record_error(record.header.record_type, record.offset, error),
                        ),
                        Ok(fold) => Ok(GatherModel { fold, ..self }),
                    },
                },
            }
        }
    }

    /// After the records from index `from` on.
    pub open spec fn gathered(self, timed: Seq<TimedModel>, from: int, setup: SetupModel) -> Result<
        GatherModel,
        Seq<char>,
    >
        decreases timed.len() - from,
    {
        if from >= timed.len() {
            Ok(self)
        } else {
            match self.stepped(timed[from], from, setup) {
                Err(error) => Err(error),
                Ok(after) => after.gathered(timed, from + 1, setup),
            }
        }
    }
}

/// What all records of a file tell, with the records that waited at its end.
pub open spec fn collected_of(bytes: Seq<u8>, options: FoldOptions, objects: ObjectsModel) -> Result<
    FoldModel,
    Seq<char>,
> {
    match prelude_of(bytes) {
        Err(error) => Err(error),
        Ok(prelude) => match section_of(prelude.header, bytes.len() as int) {
            Err(error) => Err(error),
            Ok((start, end)) => match timed_from(bytes, start, end, prelude.layouts) {
                Err(error) => Err(error),
                Ok(timed) => {
                    let setup = SetupModel { layouts: prelude.layouts, options, objects };
                    let start = GatherModel {
                        fold: FoldModel::nothing(prelude.build_ids, prelude.arch),
                        queue: QueueModel::nothing(),
                    };
                    match start.gathered(timed, 0, setup) {
                        Err(error) => Err(error),
                        Ok(gathered) => gathered.fold.after(gathered.queue.rest(), setup),
                    }
                },
            },
        },
    }
}

/// Applies records.
fn apply_all(
    accumulator: &mut FoldAccumulator,
    records: Vec<ParsedRecord>,
    sample_layouts: &SampleLayouts,
    options: FoldOptions,
    objects: &ObjectStore,
) -> (result: Result<(), String>)
    requires
        old(accumulator).wf(),
        sample_layouts@.wf(),
        objects.images.wf(),
    ensures
        final(accumulator).wf(),
        match (
            result,
            old(accumulator)@.applied_all(
                views(records@),
                0,
                sample_layouts@,
                options,
                objects@,
            ),
        ) {
            (Ok(_), Ok(after)) => final(accumulator)@ == after,
            (Err(error), Err(told)) => error@ == told,
            _ => false,
        },
{
    let ghost held = records@;
    let ghost all = views(records@);
    let ghost whole = accumulator@.applied_all(all, 0, sample_layouts@, options, objects@);
    for record in it: records
        invariant
            it.seq() == held,
            all == views(held),
            accumulator.wf(),
            sample_layouts@.wf(),
            objects.images.wf(),
            whole == old(accumulator)@.applied_all(all, 0, sample_layouts@, options, objects@),
            whole == accumulator@.applied_all(
                all,
                it.index() as int,
                sample_layouts@,
                options,
                objects@,
            ),
    {
        assert(all[it.index() as int] == record@);
        accumulator.apply_record(record, sample_layouts, options, objects)?;
    }
    Ok(())
}

/// Gathers the stacks of all records of a file.
///
/// # Errors
///
/// Returns an error when the file cannot be parsed.
pub fn collect_fold_data(bytes: &[u8], options: FoldOptions, objects: &ObjectStore) -> (result:
    Result<FoldAccumulator, String>)
    requires
        objects.images.wf(),
    ensures
        match (result, collected_of(bytes@, options, objects@)) {
            (Ok(accumulator), Ok(model)) => accumulator.wf() && accumulator@ == (FoldModel {
                deferred: Map::empty(),
                ..model
            }),
            (Err(error), Err(told)) => error@ == told,
            _ => false,
        },
{
    let prelude = read_prelude(bytes)?;
    let FilePrelude { header, layouts, accumulator } = prelude;
    let mut accumulator = accumulator;
    let (start, end) = data_section(&header, bytes)?;
    let timed = timed_records(bytes, start, end, &layouts)?;
    let mut queue = OrderedRecordQueue::new();
    let ghost all = views(timed@);
    let ghost setup = SetupModel { layouts: layouts@, options, objects: objects@ };
    let ghost gathered = GatherModel { fold: accumulator@, queue: queue@ }.gathered(all, 0, setup);
    let ghost whole = collected_of(bytes@, options, objects@);
    let mut index: usize = 0;
    while index < timed.len()
        invariant
            index <= timed@.len(),
            all == views(timed@),
            setup == (SetupModel { layouts: layouts@, options, objects: objects@ }),
            layouts@.wf(),
            objects.images.wf(),
            accumulator.wf(),
            queue.wf(),
            queue.bound() <= index,
            whole == collected_of(bytes@, options, objects@),
            whole == match gathered {
                Err(error) => Err(error),
                Ok(gathered) => gathered.fold.after(gathered.queue.rest(), setup),
            },
            gathered == (GatherModel { fold: accumulator@, queue: queue@ }).gathered(
                all,
                index as int,
                setup,
            ),
        decreases timed@.len() - index,
    {
        let record = timed[index].record;
        assert(all[index as int] == timed@[index as int]@);
        let kind: u32 = record.header.record_type;
        let offset: usize = record.offset;
        if kind == PERF_RECORD_FINISHED_ROUND {
            let records = queue.flush_round();
            apply_all(&mut accumulator, records, &layouts, options, objects)?;
        } else {
            let parsed = parse_record_with_context(record)?;
            match timed[index].time {
                Some(time) => queue.queue(index, time, parsed),
                None => match accumulator.apply_record(parsed, &layouts, options, objects) {
                    Ok(_) => {},
                    Err(error) => return Err(record_error_message(kind, offset, error.as_str())),
                },
            }
        }
        index += 1;
    }
    let records = queue.flush_final();
    apply_all(&mut accumulator, records, &layouts, options, objects)?;
    accumulator.flush_deferred_samples();
    Ok(accumulator)
}

/// Collapses parsed perf sample callchains into folded stack lines.
///
/// # Errors
///
/// Returns an error when the `perf.data` input cannot be parsed.
pub fn fold_perfdata_callchains(bytes: &[u8], objects: &ObjectStore) -> (result: Result<
    String,
    String,
>)
    requires
        objects.images.wf(),
    ensures
        folds(
            result,
            collected_of(
                bytes@,
                (FoldOptions { count_periods: false, inline: false }),
                objects@,
            ),
            None,
            false,
        ),
{
    fold_perfdata_callchains_with_options(
        bytes,
        FoldOptions { count_periods: false, inline: false },
        objects,
    )
}

/// Whether a result is the folded text of what records told, or the error that reading them
/// gave.
pub open spec fn folds(
    result: Result<String, String>,
    collected: Result<FoldModel, Seq<char>>,
    symbols: Option<SymbolsModel>,
    inline: bool,
) -> bool {
    match (result, collected) {
        (Ok(text), Ok(model)) => is_folded_text(
            text@,
            drained(
                Map::empty(),
                model.stacks,
                RenderModel { table: model.table, symbols, inline },
            ),
        ),
        (Err(error), Err(told)) => error@ == told,
        _ => false,
    }
}

/// Collapses parsed perf sample callchains into folded stack lines.
///
/// # Errors
///
/// Returns an error when the `perf.data` input cannot be parsed.
pub fn fold_perfdata_callchains_with_options(
    bytes: &[u8],
    options: FoldOptions,
    objects: &ObjectStore,
) -> (result: Result<String, String>)
    requires
        objects.images.wf(),
    ensures
        folds(result, collected_of(bytes@, options, objects@), None, options.inline),
{
    let accumulator = collect_fold_data(bytes, options, objects)?;
    Ok(render_fold_data(&accumulator, None, options.inline))
}

/// Collapses parsed perf sample callchains, with the symbols of a table.
///
/// # Errors
///
/// Returns an error when the `perf.data` input cannot be parsed.
pub fn fold_perfdata_callchains_with_symbols(
    bytes: &[u8],
    options: FoldOptions,
    objects: &ObjectStore,
    symbols: &SymbolTable,
) -> (result: Result<String, String>)
    requires
        objects.images.wf(),
        symbols.wf(),
    ensures
        folds(result, collected_of(bytes@, options, objects@), Some(symbols@), options.inline),
{
    let accumulator = collect_fold_data(bytes, options, objects)?;
    Ok(render_fold_data(&accumulator, Some(symbols), options.inline))
}

/// Renders gathered stacks as folded lines.
pub fn render_fold_data(
    accumulator: &FoldAccumulator,
    symbols: Option<&SymbolTable>,
    inline: bool,
) -> (text: String)
    requires
        accumulator.wf(),
        symbols_wf(symbols),
    ensures
        is_folded_text(
            text@,
            drained(
                Map::empty(),
                accumulator@.stacks,
                (RenderModel {
                    table: accumulator@.table,
                    symbols: symbols_view(symbols),
                    inline,
                }),
            ),
        ),
{
    let mut counts = FoldCounts::new();
    accumulate_fold_counts(
        accumulator.raw_stacks(),
        accumulator.mmap_table(),
        &mut counts,
        symbols,
        inline,
    );
    proof {
        lines_stay_text(
            Map::empty(),
            listing(accumulator@.stacks),
            RenderModel { table: accumulator@.table, symbols: symbols_view(symbols), inline },
        );
    }
    folded_text(counts)
}

// ---------------------------------------------------------------------------
// Folding a file round by round
// ---------------------------------------------------------------------------

/// What was read of a file, what its records told, and the lines rendered at the ends of rounds.
#[verifier::ext_equal]
pub struct RunModel {
    pub stream: StreamModel,
    pub fold: FoldModel,
    pub counts: Map<Seq<u8>, u64>,
}

impl RunModel {
    /// After the stacks gathered so far were rendered.
    pub open spec fn rendered(self, symbols: Option<SymbolsModel>, inline: bool) -> RunModel {
        RunModel {
            counts: drained(
                self.counts,
                self.fold.stacks,
                RenderModel { table: self.fold.table, symbols, inline },
            ),
            fold: FoldModel { stacks: Map::empty(), ..self.fold },
            ..self
        }
    }

    /// After one more record of the file, and whether a round was finished.
    pub open spec fn stepped(self, bytes: Seq<u8>, end: int, setup: SetupModel) -> Result<
        (RunModel, bool),
        Seq<char>,
    > {
        match self.stream.stepped(bytes, end, setup.layouts) {
            Err(error) => Err(error),
            Ok((stream, batch)) => match self.fold.after(batch.records, setup) {
                Err(error) => Err(error),
                Ok(fold) => Ok((RunModel { stream, fold, ..self }, batch.round_finished)),
            },
        }
    }

    /// After all records of the file, with the stacks of each round rendered at its end.
    /// A record has at least the eight bytes of its header and ends in the section, so each step
    /// moves on and the error without a text never comes.
    pub open spec fn run(
        self,
        bytes: Seq<u8>,
        end: int,
        setup: SetupModel,
        symbols: Option<SymbolsModel>,
    ) -> Result<RunModel, Seq<char>>
        decreases end - self.stream.offset,
    {
        if self.stream.offset >= end {
            match self.fold.after(self.stream.queue.rest(), setup) {
                Err(error) => Err(error),
                Ok(fold) => Ok(
                    RunModel { fold: FoldModel { deferred: Map::empty(), ..fold }, ..self }.rendered(
                        symbols,
                        setup.options.inline,
                    ),
                ),
            }
        } else {
            match self.stepped(bytes, end, setup) {
                Err(error) => Err(error),
                Ok((after, round_finished)) => if after.stream.offset <= self.stream.offset
                    || after.stream.offset > end {
                    Err(Seq::empty())
                } else if round_finished {
                    after.rendered(symbols, setup.options.inline).run(bytes, end, setup, symbols)
                } else {
                    after.run(bytes, end, setup, symbols)
                },
            }
        }
    }
}

/// The lines of a file whose stacks are rendered round by round.
pub open spec fn streamed_of(
    bytes: Seq<u8>,
    options: FoldOptions,
    objects: ObjectsModel,
    symbols: Option<SymbolsModel>,
) -> Result<Map<Seq<u8>, u64>, Seq<char>> {
    match opening_of(bytes) {
        Err(error) => Err(error),
        Ok(prelude) => match section_of(prelude.header, bytes.len() as int) {
            Err(error) => Err(error),
            Ok((start, end)) => {
                let run = RunModel {
                    stream: StreamModel::start(start),
                    fold: FoldModel::nothing(prelude.build_ids, prelude.arch),
                    counts: Map::empty(),
                };
                let setup = SetupModel { layouts: prelude.layouts, options, objects };
                match run.run(bytes, end, setup, symbols) {
                    Err(error) => Err(error),
                    Ok(done) => Ok(done.counts),
                }
            },
        },
    }
}

/// Folds a file round by round. After each step that finishes a round, and at the end, the
/// stacks gathered so far are rendered.
pub struct FoldStream {
    layouts: SampleLayouts,
    stream: RecordStream,
    accumulator: FoldAccumulator,
    counts: FoldCounts,
}

impl View for FoldStream {
    type V = RunModel;

    closed spec fn view(&self) -> RunModel {
        RunModel {
            stream: self.stream@,
            fold: self.accumulator@,
            counts: totals(self.counts@),
        }
    }
}

impl FoldStream {
    /// The layouts of the file.
    pub closed spec fn layouts(&self) -> LayoutsModel {
        self.layouts@
    }

    /// Where the data section ends.
    pub closed spec fn end(&self) -> int {
        self.stream.end()
    }

    /// Whether all parts are in order.
    pub closed spec fn wf(&self) -> bool {
        &&& self.layouts@.wf()
        &&& self.stream.wf()
        &&& self.accumulator.wf()
        &&& self.counts.wf()
        &&& all_text(totals(self.counts@))
    }

    /// Opens a file.
    ///
    /// # Errors
    ///
    /// Returns an error when what the file says before its records cannot be read, or its data
    /// section does not fit in it.
    pub fn open(bytes: &[u8]) -> (result: Result<FoldStream, String>)
        ensures
            match result {
                Ok(stream) => stream.wf() && stream.end() <= bytes.len() && (opening_of(
                    bytes@,
                ) matches Ok(prelude) && section_of(
                    prelude.header,
                    bytes@.len() as int,
                ) matches Ok((start, end)) && stream.end() == end && stream.layouts()
                    == prelude.layouts && stream@ == (RunModel {
                    stream: StreamModel::start(start),
                    fold: FoldModel::nothing(prelude.build_ids, prelude.arch),
                    counts: Map::empty(),
                })),
                Err(error) => match opening_of(bytes@) {
                    Err(told) => error@ == told,
                    Ok(prelude) => section_of(prelude.header, bytes@.len() as int) == Err::<
                        (int, int),
                        Seq<char>,
                    >(error@),
                },
            },
    {
        let prelude = open_file(bytes)?;
        let FilePrelude { header, layouts, accumulator } = prelude;
        let (start, end) = data_section(&header, bytes)?;
        let stream = RecordStream::new(start, end);
        Ok(FoldStream { layouts, stream, accumulator, counts: FoldCounts::new() })
    }

    /// Whether all records were read.
    #[must_use]
    pub fn is_done(&self) -> (done: bool)
        requires
            self.wf(),
        ensures
            done == (self@.stream.offset >= self.end()),
    {
        self.stream.is_done()
    }

    /// Takes one more record in; tells whether it finished a round.
    ///
    /// # Errors
    ///
    /// Returns an error when the record cannot be read.
    pub fn step(&mut self, bytes: &[u8], options: FoldOptions, objects: &ObjectStore) -> (result:
        Result<bool, String>)
        requires
            old(self).wf(),
            old(self)@.stream.offset < old(self).end() <= bytes.len(),
            objects.images.wf(),
        ensures
            final(self).wf(),
            final(self).end() == old(self).end(),
            final(self).layouts() == old(self).layouts(),
            match (
                result,
                old(self)@.stepped(
                    bytes@,
                    old(self).end(),
                    (SetupModel { layouts: old(self).layouts(), options, objects: objects@ }),
                ),
            ) {
                (Ok(round_finished), Ok((after, told))) => final(self)@ == after
                    && round_finished == told && old(self)@.stream.offset
                    < final(self)@.stream.offset <= final(self).end(),
                (Err(error), Err(told)) => error@ == told,
                _ => false,
            },
    {
        let batch = self.stream.step(bytes, &self.layouts)?;
        let RecordBatch { records, round_finished } = batch;
        proof {
            self.stream.stays_inside();
        }
        apply_all(&mut self.accumulator, records, &self.layouts, options, objects)?;
        Ok(round_finished)
    }

    /// The gathered stacks whose symbols may be asked for, and the mappings they lie in.
    #[must_use]
    pub fn gathered(&self) -> (accumulator: &FoldAccumulator)
        requires
            self.wf(),
        ensures
            accumulator.wf(),
            accumulator@ == self@.fold,
    {
        &self.accumulator
    }

    /// Renders the stacks gathered so far.
    pub fn drain(&mut self, symbols: Option<&SymbolTable>, inline: bool)
        requires
            old(self).wf(),
            symbols_wf(symbols),
        ensures
            final(self).wf(),
            final(self).end() == old(self).end(),
            final(self).layouts() == old(self).layouts(),
            final(self)@ == old(self)@.rendered(symbols_view(symbols), inline),
    {
        let stacks = self.accumulator.take_stacks();
        let ghost render = RenderModel {
            table: self.accumulator@.table,
            symbols: symbols_view(symbols),
            inline,
        };
        proof {
            lines_stay_text(totals(self.counts@), listing(stacks@), render);
        }
        accumulate_fold_counts(
            &stacks,
            self.accumulator.mmap_table(),
            &mut self.counts,
            symbols,
            inline,
        );
    }

    /// Takes in the records that waited when the file ended.
    ///
    /// # Errors
    ///
    /// Returns an error when one of them cannot be read.
    pub fn flush(&mut self, options: FoldOptions, objects: &ObjectStore) -> (result: Result<
        (),
        String,
    >)
        requires
            old(self).wf(),
            objects.images.wf(),
        ensures
            final(self).wf(),
            final(self).end() == old(self).end(),
            final(self).layouts() == old(self).layouts(),
            match (
                result,
                old(self)@.fold.after(
                    old(self)@.stream.queue.rest(),
                    (SetupModel { layouts: old(self).layouts(), options, objects: objects@ }),
                ),
            ) {
                (Ok(_), Ok(fold)) => final(self)@.fold == (FoldModel {
                    deferred: Map::empty(),
                    ..fold
                }) && final(self)@.counts == old(self)@.counts,
                (Err(error), Err(told)) => error@ == told,
                _ => false,
            },
    {
        let records = self.stream.finish();
        apply_all(&mut self.accumulator, records, &self.layouts, options, objects)?;
        self.accumulator.flush_deferred_samples();
        Ok(())
    }

    /// The folded text of all rendered stacks.
    #[must_use]
    pub fn into_text(self) -> (text: String)
        requires
            self.wf(),
        ensures
            is_folded_text(text@, self@.counts),
    {
        folded_text(self.counts)
    }
}

/// Whether a result is the folded text of counted lines, or the error that reading gave.
pub open spec fn folds_lines(
    result: Result<String, String>,
    counts: Result<Map<Seq<u8>, u64>, Seq<char>>,
) -> bool {
    match (result, counts) {
        (Ok(text), Ok(counts)) => is_folded_text(text@, counts),
        (Err(error), Err(told)) => error@ == told,
        _ => false,
    }
}

/// Folds a file round by round, with the symbols of a table where there is one.
///
/// # Errors
///
/// Returns an error when the file cannot be parsed.
pub fn fold_perfdata_rounds(
    bytes: &[u8],
    options: FoldOptions,
    objects: &ObjectStore,
    symbols: Option<&SymbolTable>,
) -> (result: Result<String, String>)
    requires
        objects.images.wf(),
        symbols_wf(symbols),
    ensures
        folds_lines(result, streamed_of(bytes@, options, objects@, symbols_view(symbols))),
{
    let mut stream = FoldStream::open(bytes)?;
    let ghost setup = SetupModel { layouts: stream.layouts(), options, objects: objects@ };
    let ghost end = stream.end();
    let ghost whole = stream@.run(bytes@, end, setup, symbols_view(symbols));
    while !stream.is_done()
        invariant
            stream.wf(),
            stream.end() == end,
            end <= bytes.len(),
            stream.layouts() == setup.layouts,
            setup == (SetupModel { layouts: stream.layouts(), options, objects: objects@ }),
            objects.images.wf(),
            symbols_wf(symbols),
            streamed_of(bytes@, options, objects@, symbols_view(symbols)) == match whole {
                Err(error) => Err(error),
                Ok(done) => Ok(done.counts),
            },
            whole == stream@.run(bytes@, end, setup, symbols_view(symbols)),
        decreases end - stream@.stream.offset,
    {
        let round_finished = stream.step(bytes, options, objects)?;
        if round_finished {
            stream.drain(symbols, options.inline);
        }
    }
    stream.flush(options, objects)?;
    stream.drain(symbols, options.inline);
    Ok(stream.into_text())
}

/// What the first `count` stacks weigh that have a line.
pub open spec fn shown_weight(list: Seq<StackCount>, count: int, render: RenderModel) -> int
    decreases count,
{
    if count <= 0 {
        0
    } else {
        let entry = list[count - 1];
        let line = stack_line(
            render.table,
            entry.0.0,
            entry.0.1,
            entry.0.2,
            render.symbols,
            render.inline,
        );
        shown_weight(list, count - 1, render) + (if line.len() == 0 {
            0int
        } else {
            entry.1 as int
        })
    }
}

/// No count is lost in rendering: the lines of stacks count what the stacks weigh that have a
/// line, where the total is not too large.
pub proof fn rendering_adds_up(
    counts: Map<Seq<u8>, u64>,
    list: Seq<StackCount>,
    render: RenderModel,
)
    requires
        counts.dom().finite(),
        total(counts) + shown_weight(list, list.len() as int, render) <= u64::MAX,
    ensures
        with_stack_lines(counts, list, render).dom().finite(),
        total(with_stack_lines(counts, list, render)) == total(counts) + shown_weight(
            list,
            list.len() as int,
            render,
        ),
    decreases list.len(),
{
    if list.len() > 0 {
        let rest = list.drop_last();
        let entry = list.last();
        shown_weight_of_start(list, rest.len() as int, render);
        shown_weight_is_natural(rest, rest.len() as int, render);
        rendering_adds_up(counts, rest, render);
        let before = with_stack_lines(counts, rest, render);
        let line = stack_line(
            render.table,
            entry.0.0,
            entry.0.1,
            entry.0.2,
            render.symbols,
            render.inline,
        );
        assert(with_stack_lines(counts, list, render) == with_stack_line(before, entry, render));
        if line.len() > 0 {
            crate::perfdata::fold_counts::additions_add_up(before, encode_utf8(line), entry.1);
        }
    }
}

proof fn shown_weight_of_start(list: Seq<StackCount>, count: int, render: RenderModel)
    requires
        0 <= count < list.len(),
    ensures
        shown_weight(list, count, render) == shown_weight(list.drop_last(), count, render),
    decreases count,
{
    if count > 0 {
        shown_weight_of_start(list, count - 1, render);
    }
}

proof fn shown_weight_is_natural(list: Seq<StackCount>, count: int, render: RenderModel)
    ensures
        0 <= shown_weight(list, count, render),
    decreases count,
{
    if count > 0 {
        shown_weight_is_natural(list, count - 1, render);
    }
}

// ---------------------------------------------------------------------------
// Laws
// ---------------------------------------------------------------------------

/// The line of a counted stack.
pub open spec fn line_of(entry: StackCount, render: RenderModel) -> Seq<char> {
    stack_line(
        render.table,
        entry.0.0,
        entry.0.1,
        entry.0.2,
        render.symbols,
        render.inline,
    )
}

/// What the first `count` stacks weigh that have a line of some bytes.
pub open spec fn weight_of_line(
    list: Seq<StackCount>,
    render: RenderModel,
    bytes: Seq<u8>,
    count: int,
) -> nat
    decreases count,
{
    if count <= 0 {
        0
    } else {
        let entry = list[count - 1];
        let line = line_of(entry, render);
        weight_of_line(list, render, bytes, count - 1) + if line.len() > 0 && encode_utf8(line)
            == bytes {
            entry.1 as nat
        } else {
            0
        }
    }
}

/// Whether one of some stacks has a line of some bytes.
pub open spec fn some_line_is(list: Seq<StackCount>, render: RenderModel, bytes: Seq<u8>) -> bool {
    exists|i: int|
        0 <= i < list.len() && line_of(#[trigger] list[i], render).len() > 0 && encode_utf8(
            line_of(list[i], render),
        ) == bytes
}

/// The count of a line grows by the weights of all stacks that have it, up to the largest count;
/// lines that no stack has stay what they were.
pub proof fn lines_weigh_what_their_stacks_weigh(
    counts: Map<Seq<u8>, u64>,
    list: Seq<StackCount>,
    render: RenderModel,
    bytes: Seq<u8>,
)
    ensures
        ({
            let after = with_stack_lines(counts, list, render);
            let before = if counts.contains_key(bytes) {
                counts[bytes] as nat
            } else {
                0
            };
            let weight = before + weight_of_line(list, render, bytes, list.len() as int);
            &&& after.contains_key(bytes) <==> counts.contains_key(bytes) || some_line_is(
                list,
                render,
                bytes,
            )
            &&& after.contains_key(bytes) ==> after[bytes] == if weight > u64::MAX {
                u64::MAX as nat
            } else {
                weight
            }
        }),
    decreases list.len(),
{
    if list.len() > 0 {
        let rest = list.drop_last();
        let entry = list.last();
        lines_weigh_what_their_stacks_weigh(counts, rest, render, bytes);
        weight_of_start(list, render, bytes, rest.len() as int);
        let before = with_stack_lines(counts, rest, render);
        assert(with_stack_lines(counts, list, render) == with_stack_line(before, entry, render));
        if some_line_is(rest, render, bytes) {
            let i = choose|i: int|
                0 <= i < rest.len() && line_of(#[trigger] rest[i], render).len() > 0 && encode_utf8(
                    line_of(rest[i], render),
                ) == bytes;
            assert(list[i] == rest[i]);
        }
        if some_line_is(list, render, bytes) && !some_line_is(rest, render, bytes) {
            let i = choose|i: int|
                0 <= i < list.len() && line_of(#[trigger] list[i], render).len() > 0 && encode_utf8(
                    line_of(list[i], render),
                ) == bytes;
            assert(i < rest.len() ==> rest[i] == list[i]);
        }
        assert(list[list.len() - 1] == entry);
        if !counts.contains_key(bytes) && !some_line_is(rest, render, bytes) {
            no_line_weighs_nothing(rest, render, bytes, rest.len() as int);
        }
    }
}

proof fn weight_of_start(list: Seq<StackCount>, render: RenderModel, bytes: Seq<u8>, count: int)
    requires
        0 <= count < list.len(),
    ensures
        weight_of_line(list, render, bytes, count) == weight_of_line(
            list.drop_last(),
            render,
            bytes,
            count,
        ),
    decreases count,
{
    if count > 0 {
        weight_of_start(list, render, bytes, count - 1);
    }
}

proof fn no_line_weighs_nothing(
    list: Seq<StackCount>,
    render: RenderModel,
    bytes: Seq<u8>,
    count: int,
)
    requires
        0 <= count <= list.len(),
        !some_line_is(list, render, bytes),
    ensures
        weight_of_line(list, render, bytes, count) == 0,
    decreases count,
{
    if count > 0 {
        no_line_weighs_nothing(list, render, bytes, count - 1);
        let entry = list[count - 1];
        assert(line_of(entry, render).len() == 0 || encode_utf8(line_of(entry, render)) != bytes);
    }
}

/// The records that get their times are all records of the section, in their order, and each time
/// is the one that its record holds.
pub proof fn all_records_get_their_times(
    bytes: Seq<u8>,
    offset: int,
    end: int,
    layouts: LayoutsModel,
)
    requires
        end <= bytes.len() <= usize::MAX,
    ensures
        timed_from(bytes, offset, end, layouts) matches Ok(timed) ==> {
            &&& records_from(bytes, offset, end) == Ok::<Seq<RecordModel>, Seq<char>>(
                timed.map_values(|it: TimedModel| it.record),
            )
            &&& forall|i: int|
                0 <= i < timed.len() ==> layouts.time_of(
                    (#[trigger] timed[i]).record.header.record_type,
                    timed[i].record.payload,
                ) == Ok::<Option<u64>, Seq<char>>(timed[i].time)
        },
    decreases end - offset,
{
    if let Ok(timed) = timed_from(bytes, offset, end, layouts) {
        let plain = |it: TimedModel| it.record;
        if offset < end {
            let record = framed(bytes, offset, end)->Ok_0;
            all_records_get_their_times(bytes, offset + record.header.size, end, layouts);
            let rest = timed_from(bytes, offset + record.header.size, end, layouts)->Ok_0;
            assert(timed.skip(1) =~= rest);
            assert(timed.map_values(plain) =~= seq![record] + rest.map_values(plain));
            assert forall|i: int| 0 <= i < timed.len() implies layouts.time_of(
                (#[trigger] timed[i]).record.header.record_type,
                timed[i].record.payload,
            ) == Ok::<Option<u64>, Seq<char>>(timed[i].time) by {
                if i > 0 {
                    assert(timed[i] == rest[i - 1]);
                }
            }
        } else {
            assert(timed.map_values(plain) =~= Seq::empty());
        }
    }
}

} // verus!
