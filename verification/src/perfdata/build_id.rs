//! Build ids: the events of the feature section, those of the record stream, and the kernel's.

use vstd::prelude::*;
use vstd::slice::slice_subrange;
use vstd::utf8::{decode_utf8, encode_scalar, encode_utf8, valid_utf8};

use crate::perfdata::endian::{
    end_error, four_bytes, le_u16, le_u32, lowest_bytes_come_first, u16_at, u32_at, unexpected_end,
    written_numbers_are_read,
};
use crate::perfdata::header::{
    feature_sections_of, header_of, parse_feature_sections, parse_header, PerfFeatureSection,
    PerfHeader,
};
use crate::perfdata::records::{
    iter_records, mmap2_build_id_record_of, parse_mmap2_build_id_record, records_of, RecordModel,
    PERF_RECORD_HEADER_BUILD_ID, PERF_RECORD_MISC_MMAP_BUILD_ID, PERF_RECORD_MMAP2,
};
use crate::text::{
    after, beginning_is_being_in_front, begins_with, chars_of, decimal, find_byte, first_from,
    hexadecimal, joined, matches_at, number_message, outcome, push_hexadecimal, size_from_u64,
    starts_with, text_from_utf8, utf8_error, views,
};

verus! {

broadcast use vstd::std_specs::control_flow::group_control_flow_axioms;

/// The feature whose section lists build ids.
pub const HEADER_BUILD_ID: u16 = 2;

/// Bit 15 of a build-id record's flags: the record states the build id's size.
pub const PERF_RECORD_MISC_BUILD_ID_SIZE: u16 = 0x8000;

const BUILD_ID_SIZE: usize = 20;

const BUILD_ID_STORAGE_SIZE: usize = 24;

const BUILD_ID_EVENT_MIN_SIZE: usize = 36;

const BUILD_ID_RECORD_PAYLOAD_MIN_SIZE: usize = 28;

#[derive(Clone, Debug, Eq, PartialEq)]
pub struct BuildIdEvent {
    pub pid: u32,
    pub build_id: String,
    pub filename: String,
}

/// The contents of a [`BuildIdEvent`].
#[verifier::ext_equal]
pub struct BuildIdModel {
    pub pid: u32,
    pub build_id: Seq<char>,
    pub filename: Seq<char>,
}

impl View for BuildIdEvent {
    type V = BuildIdModel;

    open spec fn view(&self) -> BuildIdModel {
        BuildIdModel { pid: self.pid, build_id: self.build_id@, filename: self.filename@ }
    }
}

/// A fallible list of events with everything in it seen as mathematical values.
pub open spec fn events_outcome(result: Result<Vec<BuildIdEvent>, String>) -> Result<
    Seq<BuildIdModel>,
    Seq<char>,
> {
    match result {
        Ok(events) => Ok(views(events@)),
        Err(error) => Err(error@),
    }
}

/// The hexadecimal text of some bytes, two digits each.
pub open spec fn hex_text(bytes: Seq<u8>) -> Seq<char>
    decreases bytes.len(),
{
    if bytes.len() == 0 {
        Seq::empty()
    } else {
        hex_text(bytes.drop_last()) + hexadecimal(bytes.last() as nat, 2)
    }
}

/// The hexadecimal text of a build id.
pub fn build_id_hex(bytes: &[u8]) -> (hex: String)
    ensures
        hex@ == hex_text(bytes@),
{
    let mut hex = String::new();
    let mut i: usize = 0;
    while i < bytes.len()
        invariant
            i <= bytes.len(),
            hex@ == hex_text(bytes@.subrange(0, i as int)),
        decreases bytes.len() - i,
    {
        push_hexadecimal(&mut hex, bytes[i] as u64, 2);
        i += 1;
        assert(bytes@.subrange(0, i as int).drop_last() =~= bytes@.subrange(0, i - 1));
    }
    assert(bytes@.subrange(0, i as int) =~= bytes@);
    hex
}

/// The name in front of the first zero byte, which must be UTF-8.
pub open spec fn filename_of(bytes: Seq<u8>) -> Result<Seq<char>, Seq<char>> {
    let name = bytes.subrange(0, first_from(bytes, 0u8, 0));
    if valid_utf8(name) {
        Ok(decode_utf8(name))
    } else {
        Err("build-id filename is not UTF-8: "@ + utf8_error(name))
    }
}

fn filename(bytes: &[u8]) -> (result: Result<String, String>)
    ensures
        outcome(result) == filename_of(bytes@),
{
    let end: usize = find_byte(bytes, 0, 0);
    match text_from_utf8(slice_subrange(bytes, 0, end)) {
        Ok(name) => Ok(name),
        Err(error) => Err(joined("build-id filename is not UTF-8: ", error.as_str())),
    }
}

/// An event out of its parts, the name last.
pub open spec fn event_with_name(
    pid: u32,
    build_id: Seq<u8>,
    name: Result<Seq<char>, Seq<char>>,
) -> Result<BuildIdModel, Seq<char>> {
    match name {
        Ok(filename) => Ok(BuildIdModel { pid, build_id: hex_text(build_id), filename }),
        Err(error) => Err(error),
    }
}

/// The event that one record of the feature section states. Its header's eight bytes are part
/// of it.
pub open spec fn build_id_event_of(record: Seq<u8>) -> Result<BuildIdModel, Seq<char>> {
    if le_u32(record, 0) != PERF_RECORD_HEADER_BUILD_ID {
        Err(
            "expected PERF_RECORD_HEADER_BUILD_ID, got "@ + decimal(le_u32(record, 0) as nat)
                + ""@,
        )
    } else {
        event_with_name(
            le_u32(record, 8),
            record.subrange(12, 32),
            filename_of(record.subrange(36, record.len() as int)),
        )
    }
}

fn parse_build_id_event(record: &[u8]) -> (result: Result<BuildIdEvent, String>)
    requires
        record.len() >= BUILD_ID_EVENT_MIN_SIZE,
    ensures
        outcome(result) == build_id_event_of(record@),
{
    let record_type: u32 = u32_at(record, 0);
    if record_type != PERF_RECORD_HEADER_BUILD_ID {
        return Err(
            number_message("expected PERF_RECORD_HEADER_BUILD_ID, got ", record_type as u64, ""),
        );
    }
    let name = filename(slice_subrange(record, BUILD_ID_EVENT_MIN_SIZE, record.len()))?;
    Ok(
        BuildIdEvent {
            pid: u32_at(record, 8),
            build_id: build_id_hex(slice_subrange(record, 12, 12 + BUILD_ID_SIZE)),
            filename: name,
        },
    )
}

/// The events from `offset` to the end of a feature section's payload.
pub open spec fn build_id_events_from(payload: Seq<u8>, offset: int) -> Result<
    Seq<BuildIdModel>,
    Seq<char>,
>
    decreases payload.len() - offset,
{
    if offset >= payload.len() {
        Ok(Seq::empty())
    } else if offset + 8 > payload.len() {
        Err(unexpected_end(offset + 6))
    } else {
        let size = le_u16(payload, offset + 6);
        if size < 36 {
            Err(
                "build-id event size "@ + decimal(size as nat) + " is shorter than 36 bytes"@,
            )
        } else if offset + size > usize::MAX {
            Err("build-id event size overflows usize"@)
        } else if offset + size > payload.len() {
            Err("truncated build-id event"@)
        } else {
            match build_id_event_of(payload.subrange(offset, offset + size)) {
                Err(error) => Err(error),
                Ok(event) => after(seq![event], build_id_events_from(payload, offset + size)),
            }
        }
    }
}

/// Parses `HEADER_BUILD_ID` feature payload records.
///
/// # Errors
///
/// Returns an error when a record is truncated, has the wrong type, or carries
/// non-UTF-8 filename data.
pub fn parse_build_id_events(payload: &[u8]) -> (result: Result<Vec<BuildIdEvent>, String>)
    ensures
        events_outcome(result) == build_id_events_from(payload@, 0),
{
    let mut offset: usize = 0;
    let mut events: Vec<BuildIdEvent> = Vec::new();
    proof {
        if let Ok(items) = build_id_events_from(payload@, 0) {
            assert(views(events@) + items =~= items);
        }
    }
    while offset < payload.len()
        invariant
            build_id_events_from(payload@, 0) == after(
                views(events@),
                build_id_events_from(payload@, offset as int),
            ),
        decreases payload.len() - offset,
    {
        if payload.len() - offset < 8 {
            return Err(end_error(offset, 6));
        }
        let size: usize = u16_at(payload, offset + 6) as usize;
        if size < BUILD_ID_EVENT_MIN_SIZE {
            return Err(
                number_message("build-id event size ", size as u64, " is shorter than 36 bytes"),
            );
        }
        let end: usize = match offset.checked_add(size) {
            Some(end) => end,
            None => return Err("build-id event size overflows usize".to_string()),
        };
        if end > payload.len() {
            return Err("truncated build-id event".to_string());
        }
        let event = parse_build_id_event(slice_subrange(payload, offset, end))?;
        let ghost before = views(events@);
        events.push(event);
        proof {
            assert(views(events@) =~= before.push(event@));
            if let Ok(items) = build_id_events_from(payload@, end as int) {
                assert(before + (seq![event@] + items) =~= views(events@) + items);
            }
        }
        offset = end;
    }
    assert(views(events@) + Seq::<BuildIdModel>::empty() =~= views(events@));
    Ok(events)
}

/// The event that a build-id record of the stream states.
pub open spec fn build_id_record_of(misc: u16, payload: Seq<u8>) -> Result<
    BuildIdModel,
    Seq<char>,
> {
    let size = if misc & PERF_RECORD_MISC_BUILD_ID_SIZE != 0 {
        payload[24] as int
    } else {
        20
    };
    if payload.len() < 28 {
        Err("PERF_RECORD_HEADER_BUILD_ID payload is shorter than 28 bytes"@)
    } else if size > 24 {
        Err(
            "PERF_RECORD_HEADER_BUILD_ID build-id size "@ + decimal(size as nat)
                + " exceeds 24 bytes"@,
        )
    } else {
        event_with_name(
            le_u32(payload, 0),
            payload.subrange(4, 4 + size),
            filename_of(payload.subrange(28, payload.len() as int)),
        )
    }
}

fn parse_build_id_record(misc: u16, payload: &[u8]) -> (result: Result<BuildIdEvent, String>)
    ensures
        outcome(result) == build_id_record_of(misc, payload@),
{
    if payload.len() < BUILD_ID_RECORD_PAYLOAD_MIN_SIZE {
        return Err("PERF_RECORD_HEADER_BUILD_ID payload is shorter than 28 bytes".to_string());
    }
    let size: usize = if misc & PERF_RECORD_MISC_BUILD_ID_SIZE != 0 {
        payload[24] as usize
    } else {
        BUILD_ID_SIZE
    };
    if size > BUILD_ID_STORAGE_SIZE {
        return Err(
            number_message(
                "PERF_RECORD_HEADER_BUILD_ID build-id size ",
                size as u64,
                " exceeds 24 bytes",
            ),
        );
    }
    let name = filename(
        slice_subrange(payload, BUILD_ID_RECORD_PAYLOAD_MIN_SIZE, payload.len()),
    )?;
    Ok(
        BuildIdEvent {
            pid: u32_at(payload, 0),
            build_id: build_id_hex(slice_subrange(payload, 4, 4 + size)),
            filename: name,
        },
    )
}

/// The build-id event that one record carries, if it carries one: a build-id record, or a
/// mapping with a build id.
pub open spec fn record_build_id(record: RecordModel) -> Result<Option<BuildIdModel>, Seq<char>> {
    if record.header.record_type == PERF_RECORD_HEADER_BUILD_ID {
        match build_id_record_of(record.header.misc, record.payload) {
            Ok(event) => Ok(Some(event)),
            Err(error) => Err(error),
        }
    } else if record.header.record_type == PERF_RECORD_MMAP2 && record.header.misc
        & PERF_RECORD_MISC_MMAP_BUILD_ID != 0 {
        match mmap2_build_id_record_of(record.payload) {
            Ok(mapping) => Ok(
                Some(
                    BuildIdModel {
                        pid: mapping.pid,
                        build_id: hex_text(mapping.build_id),
                        filename: mapping.path,
                    },
                ),
            ),
            Err(error) => Err(error),
        }
    } else {
        Ok(None)
    }
}

/// The build-id events of the first `count` records.
pub open spec fn record_build_ids(records: Seq<RecordModel>, count: int) -> Result<
    Seq<BuildIdModel>,
    Seq<char>,
>
    decreases count,
{
    if count <= 0 {
        Ok(Seq::empty())
    } else {
        match record_build_ids(records, count - 1) {
            Err(error) => Err(error),
            Ok(events) => match record_build_id(records[count - 1]) {
                Err(error) => Err(error),
                Ok(Some(event)) => Ok(events.push(event)),
                Ok(None) => Ok(events),
            },
        }
    }
}

/// The build-id events of a file's record stream.
pub open spec fn stream_build_ids_of(bytes: Seq<u8>) -> Result<Seq<BuildIdModel>, Seq<char>> {
    match header_of(bytes) {
        Err(error) => Err(error),
        Ok(header) => match records_of(bytes, header) {
            Err(error) => Err(error),
            Ok(records) => record_build_ids(records, records.len() as int),
        },
    }
}

proof fn record_build_ids_error(records: Seq<RecordModel>, count: int, total: int)
    requires
        0 <= count <= total,
        record_build_ids(records, count) is Err,
    ensures
        record_build_ids(records, total) == record_build_ids(records, count),
    decreases total - count,
{
    if count < total {
        assert(record_build_ids(records, count + 1) == record_build_ids(records, count));
        record_build_ids_error(records, count + 1, total);
    }
}

fn build_id_events_from_record_stream(bytes: &[u8]) -> (result: Result<Vec<BuildIdEvent>, String>)
    ensures
        events_outcome(result) == stream_build_ids_of(bytes@),
{
    let header = parse_header(bytes)?;
    let records = iter_records(bytes, header)?;
    let mut events: Vec<BuildIdEvent> = Vec::new();
    let ghost all = views(records@);
    assert(views(events@) =~= Seq::empty());
    let mut index: usize = 0;
    while index < records.len()
        invariant
            index <= records@.len(),
            all == views(records@),
            header_of(bytes@) == Ok::<PerfHeader, Seq<char>>(header),
            records_of(bytes@, header) == Ok::<Seq<RecordModel>, Seq<char>>(all),
            record_build_ids(all, index as int) == Ok::<Seq<BuildIdModel>, Seq<char>>(
                views(events@),
            ),
        decreases records@.len() - index,
    {
        let record = records[index];
        assert(all[index as int] == record@);
        let ghost before = views(events@);
        let found: Option<BuildIdEvent> = if record.header.record_type
            == PERF_RECORD_HEADER_BUILD_ID {
            match parse_build_id_record(record.header.misc, record.payload) {
                Ok(event) => Some(event),
                Err(error) => {
                    proof {
                        record_build_ids_error(all, index + 1, all.len() as int);
                    }
                    return Err(error);
                },
            }
        } else if record.header.record_type == PERF_RECORD_MMAP2 && record.header.misc
            & PERF_RECORD_MISC_MMAP_BUILD_ID != 0 {
            match parse_mmap2_build_id_record(record.payload) {
                Ok(mapping) => Some(
                    BuildIdEvent {
                        pid: mapping.pid,
                        build_id: build_id_hex(mapping.build_id.as_slice()),
                        filename: mapping.path,
                    },
                ),
                Err(error) => {
                    proof {
                        record_build_ids_error(all, index + 1, all.len() as int);
                    }
                    return Err(error);
                },
            }
        } else {
            None
        };
        if let Some(event) = found {
            events.push(event);
            assert(views(events@) =~= before.push(event@));
        }
        index += 1;
    }
    Ok(events)
}

/// The payload of the first build-id feature section, if the file has one.
pub open spec fn build_id_payload_of(bytes: Seq<u8>) -> Result<Option<Seq<u8>>, Seq<char>> {
    match header_of(bytes) {
        Err(error) => Err(error),
        Ok(header) => match feature_sections_of(bytes, header) {
            Err(error) => Err(error),
            Ok(sections) => section_payload(bytes, first_section(sections, 0)),
        },
    }
}

/// The first build-id section from index `from` on.
pub open spec fn first_section(sections: Seq<PerfFeatureSection>, from: int) -> Option<
    PerfFeatureSection,
>
    decreases sections.len() - from,
{
    if from >= sections.len() {
        None
    } else if sections[from].feature == HEADER_BUILD_ID {
        Some(sections[from])
    } else {
        first_section(sections, from + 1)
    }
}

/// The bytes that a build-id section points to.
pub open spec fn section_payload(bytes: Seq<u8>, section: Option<PerfFeatureSection>) -> Result<
    Option<Seq<u8>>,
    Seq<char>,
> {
    match section {
        None => Ok(None),
        Some(section) => if section.offset > usize::MAX {
            Err("build-id feature offset exceeds usize"@)
        } else if section.size > usize::MAX {
            Err("build-id feature size exceeds usize"@)
        } else if section.offset + section.size > usize::MAX {
            Err("build-id feature range overflows usize"@)
        } else if section.offset + section.size > bytes.len() {
            Err("build-id feature payload is truncated"@)
        } else {
            Ok(Some(bytes.subrange(section.offset as int, section.offset + section.size)))
        },
    }
}

fn build_id_feature_payload(bytes: &[u8]) -> (result: Result<Option<&[u8]>, String>)
    ensures
        match result {
            Ok(Some(payload)) => build_id_payload_of(bytes@) == Ok::<Option<Seq<u8>>, Seq<char>>(
                Some(payload@),
            ),
            Ok(None) => build_id_payload_of(bytes@) == Ok::<Option<Seq<u8>>, Seq<char>>(None),
            Err(error) => build_id_payload_of(bytes@) == Err::<Option<Seq<u8>>, Seq<char>>(error@),
        },
{
    let header = parse_header(bytes)?;
    let sections = parse_feature_sections(bytes, &header)?;
    let mut index: usize = 0;
    while index < sections.len() && sections[index].feature != HEADER_BUILD_ID
        invariant
            index <= sections@.len(),
            first_section(sections@, 0) == first_section(sections@, index as int),
        decreases sections@.len() - index,
    {
        index += 1;
    }
    if index == sections.len() {
        return Ok(None);
    }
    let section = sections[index];
    let start: usize = match size_from_u64(section.offset) {
        Some(start) => start,
        None => return Err("build-id feature offset exceeds usize".to_string()),
    };
    let size: usize = match size_from_u64(section.size) {
        Some(size) => size,
        None => return Err("build-id feature size exceeds usize".to_string()),
    };
    let end: usize = match start.checked_add(size) {
        Some(end) => end,
        None => return Err("build-id feature range overflows usize".to_string()),
    };
    if end > bytes.len() {
        return Err("build-id feature payload is truncated".to_string());
    }
    Ok(Some(slice_subrange(bytes, start, end)))
}

/// The build-id events of a file: those of its feature section, then those of its records.
pub open spec fn build_id_events_of(bytes: Seq<u8>) -> Result<Seq<BuildIdModel>, Seq<char>> {
    match build_id_payload_of(bytes) {
        Err(error) => Err(error),
        Ok(payload) => match (match payload {
            Some(payload) => build_id_events_from(payload, 0),
            None => Ok(Seq::empty()),
        }) {
            Err(error) => Err(error),
            Ok(events) => after(events, stream_build_ids_of(bytes)),
        },
    }
}

/// Extracts all build IDs recorded in a `perf.data` file header.
///
/// # Errors
///
/// Returns an error when the `perf.data` header or build-id feature payload is
/// malformed.
pub fn build_id_events_from_perfdata(bytes: &[u8]) -> (result: Result<Vec<BuildIdEvent>, String>)
    ensures
        events_outcome(result) == build_id_events_of(bytes@),
{
    let mut events = match build_id_feature_payload(bytes)? {
        Some(payload) => parse_build_id_events(payload)?,
        None => Vec::new(),
    };
    let mut more = build_id_events_from_record_stream(bytes)?;
    let ghost first = events@;
    let ghost second = more@;
    events.append(&mut more);
    assert(views(events@) =~= views(first) + views(second));
    assert(build_id_payload_of(bytes@) == Ok::<Option<Seq<u8>>, Seq<char>>(None) ==> views(first)
        =~= Seq::empty());
    Ok(events)
}

/// Whether a text holds nothing but separators and `.` components behind a path.
pub open spec fn adds_no_component(chars: Seq<char>, at: int) -> bool
    decreases chars.len() - at,
{
    if at >= chars.len() {
        true
    } else {
        chars[at] == '/' && (adds_no_component(chars, at + 1) || (at + 1 < chars.len()
            && chars[at + 1] == '.' && adds_no_component(chars, at + 2)))
    }
}

/// Whether a file name, taken as a path, is the single component `name`.
pub open spec fn is_path(filename: Seq<char>, name: Seq<char>) -> bool {
    begins_with(filename, name) && adds_no_component(filename, name.len() as int)
}

/// Whether a file name stands for the kernel's image.
pub open spec fn names_kernel(filename: Seq<char>) -> bool {
    ||| begins_with(filename, "[kernel.kallsyms]"@)
    ||| is_path(filename, "[kernel]"@)
    ||| is_path(filename, "[guest.kernel]"@)
}

fn no_component_from(chars: &[char], at: usize) -> (empty: bool)
    requires
        at <= chars.len(),
    ensures
        empty == adds_no_component(chars@, at as int),
{
    let mut from: usize = at;
    while from < chars.len()
        invariant
            at <= from <= chars.len(),
            adds_no_component(chars@, at as int) == adds_no_component(chars@, from as int),
        decreases chars.len() - from,
    {
        if chars[from] != '/' {
            return false;
        }
        if from + 1 < chars.len() && chars[from + 1] == '.' {
            assert(!adds_no_component(chars@, from + 1));
            from += 2;
        } else {
            from += 1;
        }
    }
    true
}

fn is_kernel_build_id_filename(filename: &str) -> (kernel: bool)
    ensures
        kernel == names_kernel(filename@),
{
    let chars = chars_of(filename);
    let kernel = chars_of("[kernel]");
    let guest = chars_of("[guest.kernel]");
    starts_with(chars.as_slice(), "[kernel.kallsyms]") || (matches_at(
        chars.as_slice(),
        0,
        kernel.as_slice(),
    ) && no_component_from(chars.as_slice(), kernel.len())) || (matches_at(
        chars.as_slice(),
        0,
        guest.as_slice(),
    ) && no_component_from(chars.as_slice(), guest.len()))
}

/// The build id of the first event from index `from` on that names the kernel.
pub open spec fn kernel_build_id_from(events: Seq<BuildIdModel>, from: int) -> Option<Seq<char>>
    decreases events.len() - from,
{
    if from >= events.len() {
        None
    } else if names_kernel(events[from].filename) {
        Some(events[from].build_id)
    } else {
        kernel_build_id_from(events, from + 1)
    }
}

/// Extracts the kernel build ID recorded in a `perf.data` file.
///
/// # Errors
///
/// Returns an error when the `perf.data` header or build-id feature payload is
/// malformed.
pub fn kernel_build_id_from_perfdata(bytes: &[u8]) -> (result: Result<Option<String>, String>)
    ensures
        match (result, build_id_events_of(bytes@)) {
            (Ok(Some(build_id)), Ok(events)) => kernel_build_id_from(events, 0) == Some(build_id@),
            (Ok(None), Ok(events)) => kernel_build_id_from(events, 0) is None,
            (Err(error), Err(expected)) => error@ == expected,
            _ => false,
        },
{
    let events = build_id_events_from_perfdata(bytes)?;
    let ghost all = views(events@);
    let mut index: usize = 0;
    while index < events.len()
        invariant
            index <= events@.len(),
            all == views(events@),
            build_id_events_of(bytes@) == Ok::<Seq<BuildIdModel>, Seq<char>>(all),
            kernel_build_id_from(all, 0) == kernel_build_id_from(all, index as int),
        decreases events@.len() - index,
    {
        assert(all[index as int] == events@[index as int]@);
        if is_kernel_build_id_filename(events[index].filename.as_str()) {
            return Ok(Some(events[index].build_id.clone()));
        }
        index += 1;
    }
    Ok(None)
}

// ---------------------------------------------------------------------------
// Laws
// ---------------------------------------------------------------------------

proof fn events_of_front(left: Seq<u8>, right: Seq<u8>, offset: int)
    requires
        0 <= offset <= left.len(),
        left.len() + right.len() <= usize::MAX,
        build_id_events_from(left, offset) is Ok,
        build_id_events_from(right, 0) is Ok,
    ensures
        build_id_events_from(left + right, offset) == Ok::<Seq<BuildIdModel>, Seq<char>>(
            build_id_events_from(left, offset)->Ok_0 + build_id_events_from(right, 0)->Ok_0,
        ),
    decreases left.len() - offset,
{
    let all = left + right;
    let rest = build_id_events_from(right, 0)->Ok_0;
    if offset < left.len() {
        let size = le_u16(left, offset + 6);
        assert(all[offset + 6] == left[offset + 6]);
        assert(all[offset + 7] == left[offset + 7]);
        assert(le_u16(all, offset + 6) == size) by {
            reveal(le_u16);
        }
        assert(all.subrange(offset, offset + size) =~= left.subrange(offset, offset + size));
        events_of_front(left, right, offset + size);
        let event = build_id_event_of(left.subrange(offset, offset + size))->Ok_0;
        let items = build_id_events_from(left, offset + size)->Ok_0;
        assert(seq![event] + (items + rest) =~= (seq![event] + items) + rest);
    } else {
        events_of_back(left, right, 0);
        assert(Seq::<BuildIdModel>::empty() + rest =~= rest);
    }
}

proof fn events_of_back(left: Seq<u8>, right: Seq<u8>, offset: int)
    requires
        0 <= offset,
        left.len() + right.len() <= usize::MAX,
        build_id_events_from(right, offset) is Ok,
    ensures
        build_id_events_from(left + right, left.len() + offset) == build_id_events_from(
            right,
            offset,
        ),
    decreases right.len() - offset,
{
    let all = left + right;
    let at = left.len() + offset;
    if offset < right.len() {
        let size = le_u16(right, offset + 6);
        assert(all[at + 6] == right[offset + 6]);
        assert(all[at + 7] == right[offset + 7]);
        assert(le_u16(all, at + 6) == size) by {
            reveal(le_u16);
        }
        assert(all.subrange(at, at + size) =~= right.subrange(offset, offset + size));
        events_of_back(left, right, offset + size);
    }
}

/// The events of two payloads, one behind the other, are the events of the first and then those
/// of the second; an empty payload has none.
pub proof fn joined_payloads_give_joined_events(left: Seq<u8>, right: Seq<u8>)
    requires
        left.len() + right.len() <= usize::MAX,
        build_id_events_from(left, 0) is Ok,
        build_id_events_from(right, 0) is Ok,
    ensures
        build_id_events_from(left + right, 0) == Ok::<Seq<BuildIdModel>, Seq<char>>(
            build_id_events_from(left, 0)->Ok_0 + build_id_events_from(right, 0)->Ok_0,
        ),
        build_id_events_from(Seq::empty(), 0) == Ok::<Seq<BuildIdModel>, Seq<char>>(Seq::empty()),
{
    events_of_front(left, right, 0);
}

/// Whether a character is a hexadecimal digit in lower case.
pub open spec fn is_lower_hex(c: char) -> bool {
    '0' <= c <= '9' || 'a' <= c <= 'f'
}

proof fn hex_text_is_lower(bytes: Seq<u8>)
    ensures
        hex_text(bytes).len() == 2 * bytes.len(),
        forall|i: int| 0 <= i < hex_text(bytes).len() ==> is_lower_hex(#[trigger] hex_text(bytes)[i]),
    decreases bytes.len(),
{
    if bytes.len() > 0 {
        hex_text_is_lower(bytes.drop_last());
        let n = bytes.last() as nat;
        reveal_with_fuel(hexadecimal, 3);
        assert(hexadecimal(n, 2).len() == 2);
        let front = hex_text(bytes.drop_last());
        let text = hex_text(bytes);
        assert(text == front + hexadecimal(n, 2));
        assert forall|i: int| 0 <= i < text.len() implies is_lower_hex(#[trigger] text[i]) by {
            if i < front.len() {
                assert(text[i] == front[i]);
            } else {
                assert(text[i] == hexadecimal(n, 2)[i - front.len()]);
            }
        }
    }
}

/// Every event that is read has a build id of forty hexadecimal digits in lower case.
pub proof fn build_ids_have_forty_digits(payload: Seq<u8>, offset: int)
    requires
        0 <= offset,
    ensures
        build_id_events_from(payload, offset) matches Ok(events) ==> forall|i: int|
            0 <= i < events.len() ==> {
                &&& (#[trigger] events[i]).build_id.len() == 40
                &&& forall|j: int| 0 <= j < 40 ==> is_lower_hex(#[trigger] events[i].build_id[j])
            },
    decreases payload.len() - offset,
{
    if let Ok(events) = build_id_events_from(payload, offset) {
        if offset < payload.len() {
            let size = le_u16(payload, offset + 6);
            let record = payload.subrange(offset, offset + size);
            hex_text_is_lower(record.subrange(12, 32));
            build_ids_have_forty_digits(payload, offset + size);
            let event = build_id_event_of(record)->Ok_0;
            let rest = build_id_events_from(payload, offset + size)->Ok_0;
            assert(events == seq![event] + rest);
            assert forall|i: int| 0 <= i < events.len() implies {
                &&& (#[trigger] events[i]).build_id.len() == 40
                &&& forall|j: int| 0 <= j < 40 ==> is_lower_hex(#[trigger] events[i].build_id[j])
            } by {
                if i > 0 {
                    assert(events[i] == rest[i - 1]);
                }
            }
        }
    }
}

proof fn first_from_is_in_range(bytes: Seq<u8>, from: int)
    requires
        0 <= from <= bytes.len(),
    ensures
        from <= first_from(bytes, 0u8, from) <= bytes.len(),
    decreases bytes.len() - from,
{
    if from < bytes.len() && bytes[from] != 0 {
        first_from_is_in_range(bytes, from + 1);
    }
}

proof fn no_zero_in_front(bytes: Seq<u8>, from: int, at: int)
    requires
        0 <= from <= at < first_from(bytes, 0u8, from),
        at < bytes.len(),
    ensures
        bytes[at] != 0,
    decreases bytes.len() - from,
{
    if from < at && bytes[from] != 0 {
        no_zero_in_front(bytes, from + 1, at);
    }
}

/// A zero character is written as a zero byte.
proof fn zero_is_written(chars: Seq<char>, at: int)
    requires
        0 <= at < chars.len(),
        chars[at] == '\0',
    ensures
        encode_utf8(chars).contains(0u8),
    decreases chars.len(),
{
    let first = encode_scalar(chars[0] as u32);
    let rest = encode_utf8(chars.drop_first());
    assert(encode_utf8(chars) == first + rest);
    if at == 0 {
        assert((0u32 & 0x7F) as u8 == 0) by (bit_vector);
        assert(first[0] == 0);
        assert((first + rest)[0] == 0);
    } else {
        assert(chars.drop_first()[at - 1] == '\0');
        zero_is_written(chars.drop_first(), at - 1);
        let i = choose|i: int| 0 <= i < rest.len() && rest[i] == 0u8;
        assert((first + rest)[first.len() + i] == 0);
    }
}

/// The name of a file in an event holds no zero character.
pub proof fn filenames_end_at_zero(bytes: Seq<u8>)
    ensures
        filename_of(bytes) matches Ok(name) ==> forall|i: int|
            0 <= i < name.len() ==> #[trigger] name[i] != '\0',
{
    if let Ok(name) = filename_of(bytes) {
        let end = first_from(bytes, 0u8, 0);
        let front = bytes.subrange(0, end);
        first_from_is_in_range(bytes, 0);
        vstd::utf8::decode_utf8_encode_utf8(front);
        assert forall|i: int| 0 <= i < name.len() implies #[trigger] name[i] != '\0' by {
            if name[i] == '\0' {
                zero_is_written(name, i);
                let at = choose|at: int| 0 <= at < front.len() && front[at] == 0u8;
                no_zero_in_front(bytes, 0, at);
            }
        }
    }
}

/// Every event that is read has a name without a zero character.
pub proof fn event_names_hold_no_zero(payload: Seq<u8>, offset: int)
    requires
        0 <= offset,
    ensures
        build_id_events_from(payload, offset) matches Ok(events) ==> forall|i: int, j: int|
            0 <= i < events.len() && 0 <= j < events[i].filename.len()
                ==> #[trigger] events[i].filename[j] != '\0',
    decreases payload.len() - offset,
{
    if let Ok(events) = build_id_events_from(payload, offset) {
        if offset < payload.len() {
            let size = le_u16(payload, offset + 6);
            let record = payload.subrange(offset, offset + size);
            filenames_end_at_zero(record.subrange(36, record.len() as int));
            event_names_hold_no_zero(payload, offset + size);
            let event = build_id_event_of(record)->Ok_0;
            let rest = build_id_events_from(payload, offset + size)->Ok_0;
            assert(events == seq![event] + rest);
            assert forall|i: int, j: int|
                0 <= i < events.len() && 0 <= j < events[i].filename.len() implies (
            #[trigger] events[i].filename[j]) != '\0' by {
                if i > 0 {
                    assert(events[i] == rest[i - 1]);
                }
            }
        }
    }
}

proof fn names_are_read_up_to_zero(name: Seq<u8>, rest: Seq<u8>)
    requires
        forall|i: int| 0 <= i < name.len() ==> #[trigger] name[i] != 0,
        valid_utf8(name),
    ensures
        filename_of(name + seq![0u8] + rest) == Ok::<Seq<char>, Seq<char>>(decode_utf8(name)),
{
    let bytes = name + seq![0u8] + rest;
    zero_stands_at(bytes, 0, name.len() as int);
    assert(bytes.subrange(0, name.len() as int) =~= name);
}

proof fn zero_stands_at(bytes: Seq<u8>, from: int, at: int)
    requires
        0 <= from <= at < bytes.len(),
        forall|i: int| from <= i < at ==> #[trigger] bytes[i] != 0,
        bytes[at] == 0,
    ensures
        first_from(bytes, 0u8, from) == at,
    decreases at - from,
{
    if from < at {
        zero_stands_at(bytes, from + 1, at);
    }
}

/// The build id of a file is read from the feature section as it was written: the kind and size of
/// its event, the process, the twenty bytes of the id, and the name up to its zero byte.
pub proof fn written_build_ids_are_read(
    size: Seq<u8>,
    misc: Seq<u8>,
    pid: u32,
    id: Seq<u8>,
    unused: Seq<u8>,
    name: Seq<u8>,
    rest: Seq<u8>,
)
    requires
        size.len() == 2,
        misc.len() == 2,
        id.len() == 20,
        unused.len() == 4,
        forall|i: int| 0 <= i < name.len() ==> #[trigger] name[i] != 0,
        valid_utf8(name),
        size[0] + 0x100 * size[1] == 37 + name.len() + rest.len(),
    ensures
        build_id_events_from(
            four_bytes(67) + misc + size + four_bytes(pid) + id + unused + name + seq![0u8] + rest,
            0,
        ) == Ok::<Seq<BuildIdModel>, Seq<char>>(
            seq![BuildIdModel { pid, build_id: hex_text(id), filename: decode_utf8(name) }],
        ),
{
    let record = four_bytes(67) + misc + size + four_bytes(pid) + id + unused + name + seq![0u8]
        + rest;
    assert(record.len() == 37 + name.len() + rest.len());
    assert(le_u32(record, 0) == 67) by {
        assert(record.subrange(0, 4) =~= four_bytes(67));
        written_numbers_are_read(record, 0, 67, 0);
    }
    assert(le_u32(record, 8) == pid) by {
        assert(record.subrange(8, 12) =~= four_bytes(pid));
        written_numbers_are_read(record, 8, pid, 0);
    }
    assert(le_u16(record, 6) == record.len()) by {
        assert(record[6] == size[0] && record[7] == size[1]);
        lowest_bytes_come_first(record, 6);
    }
    assert(record.subrange(12, 32) =~= id);
    assert(record.subrange(36, record.len() as int) =~= name + seq![0u8] + rest);
    names_are_read_up_to_zero(name, rest);
    assert(record.subrange(0, record.len() as int) =~= record);
    let event = BuildIdModel { pid, build_id: hex_text(id), filename: decode_utf8(name) };
    assert(build_id_events_from(record, record.len() as int) == Ok::<
        Seq<BuildIdModel>,
        Seq<char>,
    >(Seq::empty()));
    assert(seq![event] + Seq::<BuildIdModel>::empty() =~= seq![event]);
}

/// A build id among the records is read as it was written: twenty bytes of it, or as many as the
/// byte behind them says where the flags tell of that byte.
pub proof fn written_build_id_records_are_read(
    misc: u16,
    pid: u32,
    id: Seq<u8>,
    fill: Seq<u8>,
    unused: Seq<u8>,
    name: Seq<u8>,
    rest: Seq<u8>,
)
    requires
        id.len() + fill.len() == 20,
        unused.len() == 4,
        misc & 0x8000 == 0 ==> id.len() == 20,
        misc & 0x8000 != 0 ==> unused[0] == id.len(),
        forall|i: int| 0 <= i < name.len() ==> #[trigger] name[i] != 0,
        valid_utf8(name),
    ensures
        build_id_record_of(
            misc,
            four_bytes(pid) + id + fill + unused + name + seq![0u8] + rest,
        ) == Ok::<BuildIdModel, Seq<char>>(
            BuildIdModel { pid, build_id: hex_text(id), filename: decode_utf8(name) },
        ),
{
    let payload = four_bytes(pid) + id + fill + unused + name + seq![0u8] + rest;
    assert(payload.len() == 29 + name.len() + rest.len());
    assert(le_u32(payload, 0) == pid) by {
        assert(payload.subrange(0, 4) =~= four_bytes(pid));
        written_numbers_are_read(payload, 0, pid, 0);
    }
    assert(payload[24] == unused[0]);
    assert(payload.subrange(4, 4 + id.len() as int) =~= id);
    assert(payload.subrange(28, payload.len() as int) =~= name + seq![0u8] + rest);
    names_are_read_up_to_zero(name, rest);
}

/// Records carry build ids just where they are of that kind, or are mappings whose flags tell of
/// one.
pub proof fn other_records_carry_no_build_id(record: RecordModel)
    ensures
        record_build_id(record) == Ok::<Option<BuildIdModel>, Seq<char>>(None) <==> !(
        record.header.record_type == 67 || record.header.record_type == 10 && record.header.misc
            & 0x4000 != 0),
{
}

/// The build ids of records are those that the single records carry, in their order; one record
/// that cannot be read spoils them all.
pub proof fn build_ids_of_records_stand_in_order(records: Seq<RecordModel>)
    ensures
        record_build_ids(records, records.len() as int) is Ok <==> forall|i: int|
            0 <= i < records.len() ==> record_build_id(#[trigger] records[i]) is Ok,
        record_build_ids(records, records.len() as int) matches Ok(events) ==> events
            == records.filter_map(|record: RecordModel| record_build_id(record)->Ok_0),
{
    build_ids_are_collected(records, records.len() as int);
    assert(records.take(records.len() as int) =~= records);
}

proof fn build_ids_are_collected(records: Seq<RecordModel>, count: int)
    requires
        0 <= count <= records.len(),
    ensures
        record_build_ids(records, count) is Ok <==> forall|i: int|
            0 <= i < count ==> record_build_id(#[trigger] records[i]) is Ok,
        record_build_ids(records, count) matches Ok(events) ==> events == records.take(
            count,
        ).filter_map(|record: RecordModel| record_build_id(record)->Ok_0),
    decreases count,
{
    reveal(Seq::filter_map);
    if count > 0 {
        build_ids_are_collected(records, count - 1);
        assert(records.take(count).drop_last() =~= records.take(count - 1));
        assert(records.take(count).last() == records[count - 1]);
    } else {
        assert(records.take(count) =~= Seq::empty());
    }
}

/// The kernel's build id is that of the first event that names the kernel.
pub proof fn first_kernel_build_id_counts(front: Seq<BuildIdModel>, behind: Seq<BuildIdModel>)
    requires
        forall|i: int|
            0 <= i < front.len() ==> !names_kernel((#[trigger] front[i]).filename),
    ensures
        kernel_build_id_from(front, 0) is None,
        behind.len() > 0 && names_kernel(behind[0].filename) ==> kernel_build_id_from(
            front + behind,
            0,
        ) == Some(behind[0].build_id),
{
    kernel_is_not_named(front, front.len() as int, 0);
    if behind.len() > 0 && names_kernel(behind[0].filename) {
        let events = front + behind;
        assert forall|i: int| 0 <= i < front.len() implies !names_kernel(
            (#[trigger] events[i]).filename,
        ) by {
            assert(events[i] == front[i]);
        }
        assert(events[front.len() as int] == behind[0]);
        kernel_is_not_named(events, front.len() as int, 0);
    }
}

proof fn kernel_is_not_named(events: Seq<BuildIdModel>, count: int, from: int)
    requires
        0 <= from <= count <= events.len(),
        forall|i: int| 0 <= i < count ==> !names_kernel((#[trigger] events[i]).filename),
    ensures
        kernel_build_id_from(events, from) == kernel_build_id_from(events, count),
    decreases count - from,
{
    if from < count {
        kernel_is_not_named(events, count, from + 1);
    }
}

/// The kernel is named by `[kernel.kallsyms]` and whatever follows, and by `[kernel]` and
/// `[guest.kernel]` with nothing behind them but separators and points. No name without a bracket
/// at its front names it.
pub proof fn kernel_is_named_in_brackets(symbol: Seq<char>, name: Seq<char>)
    ensures
        names_kernel("[kernel.kallsyms]"@ + symbol),
        names_kernel("[kernel]"@),
        names_kernel("[guest.kernel]"@),
        names_kernel("[kernel]"@ + symbol) ==> forall|i: int|
            0 <= i < symbol.len() ==> #[trigger] symbol[i] == '/' || symbol[i] == '.',
        names_kernel("[guest.kernel]"@ + symbol) ==> forall|i: int|
            0 <= i < symbol.len() ==> #[trigger] symbol[i] == '/' || symbol[i] == '.',
        name.len() == 0 || name[0] != '[' ==> !names_kernel(name),
{
    reveal_strlit("[kernel.kallsyms]");
    reveal_strlit("[kernel]");
    reveal_strlit("[guest.kernel]");
    let all = "[kernel.kallsyms]"@;
    let host = "[kernel]"@;
    let guest = "[guest.kernel]"@;
    beginning_is_being_in_front(all + symbol, all);
    assert(host =~= host + Seq::empty());
    assert(guest =~= guest + Seq::empty());
    beginning_is_being_in_front(host, host);
    beginning_is_being_in_front(guest, guest);
    assert forall|i: int|
        0 <= i < symbol.len() && names_kernel(host + symbol) implies #[trigger] symbol[i] == '/'
        || symbol[i] == '.' by {
        let text = host + symbol;
        assert(text[7] == ']' && text[0] == '[' && text[1] == 'k');
        not_in_front(text, all, 7);
        not_in_front(text, guest, 1);
        only_separators_follow(text, host.len() as int, host.len() + i);
        assert(text[host.len() + i] == symbol[i]);
    }
    assert forall|i: int|
        0 <= i < symbol.len() && names_kernel(guest + symbol) implies #[trigger] symbol[i] == '/'
        || symbol[i] == '.' by {
        let text = guest + symbol;
        assert(text[1] == 'g');
        not_in_front(text, all, 1);
        not_in_front(text, host, 1);
        only_separators_follow(text, guest.len() as int, guest.len() + i);
        assert(text[guest.len() + i] == symbol[i]);
    }
    if name.len() == 0 || name[0] != '[' {
        not_in_front(name, all, 0);
        not_in_front(name, host, 0);
        not_in_front(name, guest, 0);
    }
}

proof fn not_in_front(text: Seq<char>, prefix: Seq<char>, at: int)
    requires
        0 <= at < prefix.len(),
        at >= text.len() || text[at] != prefix[at],
    ensures
        !begins_with(text, prefix),
{
    beginning_is_being_in_front(text, prefix);
    if begins_with(text, prefix) {
        let behind = choose|behind: Seq<char>| text == #[trigger] (prefix + behind);
        assert((prefix + behind)[at] == prefix[at]);
    }
}

proof fn only_separators_follow(chars: Seq<char>, from: int, at: int)
    requires
        0 <= from <= at < chars.len(),
        adds_no_component(chars, from),
    ensures
        chars[at] == '/' || chars[at] == '.',
    decreases chars.len() - from,
{
    if from < at {
        if adds_no_component(chars, from + 1) {
            only_separators_follow(chars, from + 1, at);
        } else if from + 2 <= at {
            only_separators_follow(chars, from + 2, at);
        }
    }
}

} // verus!
