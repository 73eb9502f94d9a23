//! The records of a file one after another, in the order in which they take effect.

use vstd::prelude::*;
use vstd::slice::slice_subrange;
use vstd::string::StringExecFns;

use crate::perfdata::header::PerfHeader;
use crate::perfdata::layouts::{LayoutsModel, SampleLayouts};
use crate::perfdata::order::{record_time, OrderedRecordQueue, PendingModel, QueueModel};
use crate::perfdata::records::{
    header_at, record_at, record_header_at, ParsedModel, ParsedRecord, PerfRecord, RecordModel,
    PERF_RECORD_FINISHED_ROUND,
};
use crate::perfdata::summary::{parse_record_with_context, record_in_context};
use crate::text::{decimal, number_message, push_decimal, views};

verus! {

broadcast use vstd::std_specs::control_flow::group_control_flow_axioms;

/// The record at an offset of a data section that ends at `end`.
pub open spec fn framed(bytes: Seq<u8>, offset: int, end: int) -> Result<RecordModel, Seq<char>> {
    if offset + 8 > bytes.len() {
        Err("truncated perf record header at offset "@ + decimal(offset as nat) + ""@)
    } else {
        let size = record_header_at(bytes, offset).size;
        if size < 8 {
            Err(
                "invalid perf record size "@ + decimal(size as nat) + " at offset "@ + decimal(
                    offset as nat,
                ),
            )
        } else if offset + size > end {
            Err("perf record overruns data section at offset "@ + decimal(offset as nat) + ""@)
        } else {
            Ok(record_at(bytes, offset))
        }
    }
}

/// Reads the record at an offset of a data section.
///
/// # Errors
///
/// Returns an error when the record does not fit in the section.
pub fn frame_record(bytes: &[u8], offset: usize, end: usize) -> (result: Result<
    PerfRecord<'_>,
    String,
>)
    requires
        offset < end <= bytes.len(),
    ensures
        match result {
            Ok(record) => framed(bytes@, offset as int, end as int) == Ok::<
                RecordModel,
                Seq<char>,
            >(record@) && record.offset == offset && 8 <= record.header.size && offset
                + record.header.size <= end,
            Err(error) => framed(bytes@, offset as int, end as int) == Err::<
                RecordModel,
                Seq<char>,
            >(error@),
        },
{
    if bytes.len() - offset < 8 {
        return Err(number_message("truncated perf record header at offset ", offset as u64, ""));
    }
    let header = header_at(bytes, offset);
    let size: usize = header.size as usize;
    if size < 8 {
        let mut message = "invalid perf record size ".to_string();
        push_decimal(&mut message, size as u128);
        message.append(" at offset ");
        push_decimal(&mut message, offset as u128);
        return Err(message);
    }
    if size > end - offset {
        return Err(
            number_message("perf record overruns data section at offset ", offset as u64, ""),
        );
    }
    Ok(PerfRecord { offset, header, payload: slice_subrange(bytes, offset + 8, offset + size) })
}

/// The record at an offset of a file on disk, whose header is read first.
pub open spec fn stored_record(bytes: Seq<u8>, offset: int, end: int) -> Result<
    RecordModel,
    Seq<char>,
> {
    if offset + 8 > bytes.len() {
        Err(
            "failed to read perf record header at offset "@ + decimal(offset as nat)
                + ": failed to fill whole buffer"@,
        )
    } else {
        framed(bytes, offset, end)
    }
}

/// How far a file was read, how many records were numbered, and which wait.
#[verifier::ext_equal]
pub struct StreamModel {
    pub offset: int,
    pub index: int,
    pub queue: QueueModel,
}

/// What reading one record of a file brought: records that take effect now, and whether a round
/// was finished.
#[verifier::ext_equal]
pub struct BatchModel {
    pub records: Seq<ParsedModel>,
    pub round_finished: bool,
}

impl StreamModel {
    /// The beginning of a data section.
    pub open spec fn start(offset: int) -> StreamModel {
        StreamModel { offset, index: 0, queue: QueueModel::nothing() }
    }

    /// After one more record was read. The end of a round lets waiting records go; a record
    /// with a time waits; another takes effect at once.
    pub open spec fn stepped(self, bytes: Seq<u8>, end: int, layouts: LayoutsModel) -> Result<
        (StreamModel, BatchModel),
        Seq<char>,
    > {
        match stored_record(bytes, self.offset, end) {
            Err(error) => Err(error),
            Ok(record) => {
                let offset = self.offset + record.header.size;
                if record.header.record_type == PERF_RECORD_FINISHED_ROUND {
                    Ok(
                        (
                            StreamModel { offset, queue: self.queue.after_round(), ..self },
                            BatchModel { records: self.queue.round(), round_finished: true },
                        ),
                    )
                } else {
                    match layouts.time_of(record.header.record_type, record.payload) {
                        Err(error) => Err(error),
                        Ok(time) => match record_in_context(record) {
                            Err(error) => Err(error),
                            Ok(parsed) => match time {
                                Some(time) => Ok(
                                    (
                                        StreamModel {
                                            offset,
                                            index: self.index + 1,
                                            queue: self.queue.queued(
                                                PendingModel {
                                                    index: self.index,
                                                    time,
                                                    record: parsed,
                                                },
                                            ),
                                        },
                                        BatchModel {
                                            records: Seq::empty(),
                                            round_finished: false,
                                        },
                                    ),
                                ),
                                None => Ok(
                                    (
                                        StreamModel { offset, index: self.index + 1, ..self },
                                        BatchModel {
                                            records: seq![parsed],
                                            round_finished: false,
                                        },
                                    ),
                                ),
                            },
                        },
                    }
                }
            },
        }
    }
}

/// Records that take effect now, and whether a round was finished.
#[derive(Debug)]
pub struct RecordBatch {
    pub records: Vec<ParsedRecord>,
    pub round_finished: bool,
}

impl View for RecordBatch {
    type V = BatchModel;

    open spec fn view(&self) -> BatchModel {
        BatchModel { records: views(self.records@), round_finished: self.round_finished }
    }
}

/// Reads the records of a data section one after another.
pub struct RecordStream {
    offset: usize,
    end: usize,
    index: usize,
    queue: OrderedRecordQueue,
}

impl View for RecordStream {
    type V = StreamModel;

    closed spec fn view(&self) -> StreamModel {
        StreamModel { offset: self.offset as int, index: self.index as int, queue: self.queue@ }
    }
}

impl RecordStream {
    /// Where the data section ends.
    pub closed spec fn end(&self) -> int {
        self.end as int
    }

    /// Whether the waiting records are in order, and not more records were numbered than bytes
    /// read.
    pub closed spec fn wf(&self) -> bool {
        &&& self.queue.wf()
        &&& self.queue.bound() <= self.index
        &&& self.index <= self.offset
        &&& self.offset <= self.end
    }

    /// The beginning of the data section from `offset` to `end`.
    #[must_use]
    pub fn new(offset: usize, end: usize) -> (stream: RecordStream)
        requires
            offset <= end,
        ensures
            stream.wf(),
            stream@ == StreamModel::start(offset as int),
            stream.end() == end,
    {
        RecordStream {
            offset,
            end,
            index: 0,
            queue: OrderedRecordQueue::new(),
        }
    }

    /// No record is read behind the section's end.
    pub proof fn stays_inside(&self)
        requires
            self.wf(),
        ensures
            self@.offset <= self.end(),
    {
    }

    /// Whether all records were read.
    #[must_use]
    pub fn is_done(&self) -> (done: bool)
        requires
            self.wf(),
        ensures
            done == (self@.offset >= self.end()),
            self@.offset <= self.end(),
    {
        self.offset >= self.end
    }

    /// Reads one more record.
    ///
    /// # Errors
    ///
    /// Returns an error when the record does not fit in the section or cannot be parsed.
    pub fn step(&mut self, bytes: &[u8], sample_layouts: &SampleLayouts) -> (result: Result<
        RecordBatch,
        String,
    >)
        requires
            old(self).wf(),
            old(self)@.offset < old(self).end() <= bytes.len(),
            sample_layouts@.wf(),
        ensures
            final(self).wf(),
            final(self).end() == old(self).end(),
            match (
                result,
                old(self)@.stepped(bytes@, old(self).end(), sample_layouts@),
            ) {
                (Ok(batch), Ok((after, told))) => final(self)@ == after && batch@ == told
                    && final(self)@.offset > old(self)@.offset,
                (Err(error), Err(told)) => error@ == told,
                _ => false,
            },
    {
        if bytes.len() - self.offset < 8 {
            return Err(
                number_message(
                    "failed to read perf record header at offset ",
                    self.offset as u64,
                    ": failed to fill whole buffer",
                ),
            );
        }
        let record = frame_record(bytes, self.offset, self.end)?;
        let size: usize = record.header.size as usize;
        if record.header.record_type == PERF_RECORD_FINISHED_ROUND {
            self.offset = self.offset + size;
            let records = self.queue.flush_round();
            return Ok(RecordBatch { records, round_finished: true });
        }
        let time: Option<u64> = record_time(&record, sample_layouts)?;
        let parsed = parse_record_with_context(record)?;
        let mut records: Vec<ParsedRecord> = Vec::new();
        match time {
            Some(time) => self.queue.queue(self.index, time, parsed),
            None => records.push(parsed),
        }
        proof {
            assert(views(records@) =~= match time {
                Some(_) => Seq::empty(),
                None => seq![parsed@],
            });
        }
        self.index = self.index + 1;
        self.offset = self.offset + size;
        Ok(RecordBatch { records, round_finished: false })
    }

    /// The records that still wait when the file ends.
    pub fn finish(&mut self) -> (records: Vec<ParsedRecord>)
        requires
            old(self).wf(),
        ensures
            final(self).wf(),
            final(self).end() == old(self).end(),
            views(records@) == old(self)@.queue.rest(),
    {
        self.queue.flush_final()
    }
}

/// The data section of a file.
pub open spec fn section_of(header: PerfHeader, len: int) -> Result<(int, int), Seq<char>> {
    let end = header.data_offset + header.data_size;
    if end > u64::MAX {
        Err("perf data section size overflows u64"@)
    } else if end > len {
        Err("perf data section extends past end of file"@)
    } else {
        Ok((header.data_offset as int, end))
    }
}

/// Finds the data section of a file.
///
/// # Errors
///
/// Returns an error when the file ends in front of the section's end.
pub fn data_section(header: &PerfHeader, bytes: &[u8]) -> (result: Result<(usize, usize), String>)
    ensures
        match result {
            Ok((offset, end)) => section_of(*header, bytes@.len() as int) == Ok::<
                (int, int),
                Seq<char>,
            >((offset as int, end as int)) && offset <= end <= bytes.len(),
            Err(error) => section_of(*header, bytes@.len() as int) == Err::<
                (int, int),
                Seq<char>,
            >(error@),
        },
{
    let total: usize = bytes.len();
    let end: u64 = match header.data_offset.checked_add(header.data_size) {
        Some(end) => end,
        None => return Err("perf data section size overflows u64".to_string()),
    };
    if end > total as u64 {
        return Err("perf data section extends past end of file".to_string());
    }
    Ok((header.data_offset as usize, end as usize))
}

} // verus!
