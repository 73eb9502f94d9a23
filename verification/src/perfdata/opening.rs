//! What a file on disk says before its records, read piece by piece.

use vstd::prelude::*;
use vstd::slice::slice_subrange;
use vstd::string::StringExecFns;

use crate::perfdata::accumulate::{FoldAccumulator, FoldModel};
use crate::perfdata::attrs::{
    attr_ids_of, file_attrs_of, ids_between, parse_file_attr_ids, parse_file_attrs, PerfFileAttr,
};
use crate::perfdata::build_id::{
    build_id_events_from, parse_build_id_events, BuildIdModel, HEADER_BUILD_ID,
};
use crate::perfdata::endian::lowest_bytes_come_first;
use crate::perfdata::features::{
    arch_from, arch_name_of, build_ids_by_name, collect_build_ids, parse_arch_name,
    perf_arch_from_header, HEADER_ARCH_FEATURE,
};
use crate::perfdata::fold::{FilePrelude, PreludeModel};
use crate::perfdata::header::{
    feature_entries, feature_sections_of, header_features, header_of, parse_feature_sections,
    parse_header, set_feature_bits, PerfFeatureSection, PerfHeader, HEADER_LEN,
};
use crate::perfdata::layouts::{
    build_layouts, event_descs_of, find_section, layouts_from, parse_event_desc_entries,
    section_for, EventDescEntry, EventDescModel, LayoutsModel, SampleLayouts,
    HEADER_EVENT_DESC_FEATURE,
};
use crate::tables::NamedBytes;
use crate::text::{joined, outcome, size_from_u64, text_view, views};

verus! {

broadcast use vstd::std_specs::control_flow::group_control_flow_axioms;

// ---------------------------------------------------------------------------
// Pieces
// ---------------------------------------------------------------------------

/// The message for a piece that a file does not wholly hold.
pub open spec fn cut_short(name: Seq<char>) -> Seq<char> {
    "failed to read "@ + name + ": failed to fill whole buffer"@
}

/// `len` bytes of a file from an offset on. A piece without bytes is found at any offset.
pub open spec fn piece_of(
    bytes: Seq<u8>,
    offset: u64,
    len: u64,
    size_name: Seq<char>,
    name: Seq<char>,
) -> Result<Seq<u8>, Seq<char>> {
    if len > usize::MAX {
        Err(size_name + " exceeds usize"@)
    } else if len == 0 {
        Ok(Seq::empty())
    } else if offset + len > bytes.len() {
        Err(cut_short(name))
    } else {
        Ok(bytes.subrange(offset as int, offset + len))
    }
}

/// The message for a piece that a file does not wholly hold.
pub fn cut_short_message(name: &str) -> (message: String)
    ensures
        message@ == cut_short(name@),
{
    let mut message = joined("failed to read ", name);
    message.append(": failed to fill whole buffer");
    message
}

fn read_piece<'a>(bytes: &'a [u8], offset: u64, len: u64, size_name: &str, name: &str) -> (result:
    Result<&'a [u8], String>)
    ensures
        match result {
            Ok(piece) => piece_of(bytes@, offset, len, size_name@, name@) == Ok::<
                Seq<u8>,
                Seq<char>,
            >(piece@),
            Err(error) => piece_of(bytes@, offset, len, size_name@, name@) == Err::<
                Seq<u8>,
                Seq<char>,
            >(error@),
        },
{
    let total: usize = bytes.len();
    let size: usize = match size_from_u64(len) {
        Some(size) => size,
        None => return Err(joined(size_name, " exceeds usize")),
    };
    if size == 0 {
        let piece = slice_subrange(bytes, 0, 0);
        assert(piece@ =~= Seq::<u8>::empty());
        return Ok(piece);
    }
    match size_from_u64(offset) {
        Some(start) => if start <= total && size <= total - start {
            return Ok(slice_subrange(bytes, start, start + size));
        },
        None => {},
    }
    Err(cut_short_message(name))
}

/// The feature sections of a file. A file without features needs no table of them.
pub open spec fn stored_sections_of(bytes: Seq<u8>, header: PerfHeader) -> Result<
    Seq<PerfFeatureSection>,
    Seq<char>,
> {
    let features = header_features(bytes);
    let table = header.data_offset + header.data_size;
    if features.len() == 0 {
        Ok(Seq::empty())
    } else if table > u64::MAX {
        Err("perf.data feature table offset overflows u64"@)
    } else if table + 16 * features.len() > bytes.len() {
        Err(cut_short("perf feature table"@))
    } else {
        feature_entries(bytes, table, features, features.len() as int)
    }
}

fn read_stored_sections(bytes: &[u8], header: &PerfHeader) -> (result: Result<
    Vec<PerfFeatureSection>,
    String,
>)
    requires
        bytes.len() >= HEADER_LEN,
    ensures
        outcome(result) == stored_sections_of(bytes@, *header),
{
    let total: usize = bytes.len();
    let features = set_feature_bits(bytes)?;
    if features.len() == 0 {
        let none: Vec<PerfFeatureSection> = Vec::new();
        assert(none@ =~= Seq::<PerfFeatureSection>::empty());
        return Ok(none);
    }
    let table: u64 = match header.data_offset.checked_add(header.data_size) {
        Some(table) => table,
        None => return Err("perf.data feature table offset overflows u64".to_string()),
    };
    if table > total as u64 || features.len() > (total - table as usize) / 16 {
        return Err(cut_short_message("perf feature table"));
    }
    parse_feature_sections(bytes, header)
}

/// What a file holds of a feature; nothing for a feature that it does not have.
pub open spec fn stored_feature_of(
    bytes: Seq<u8>,
    header: PerfHeader,
    feature: u16,
    size_name: Seq<char>,
    name: Seq<char>,
) -> Result<Option<Seq<u8>>, Seq<char>> {
    match stored_sections_of(bytes, header) {
        Err(error) => Err(error),
        Ok(sections) => match section_for(sections, feature, 0) {
            None => Ok(None),
            Some(section) => match piece_of(
                bytes,
                section.offset,
                section.size,
                size_name,
                name,
            ) {
                Err(error) => Err(error),
                Ok(piece) => Ok(Some(piece)),
            },
        },
    }
}

fn read_stored_feature<'a>(
    bytes: &'a [u8],
    header: &PerfHeader,
    feature: u16,
    size_name: &str,
    name: &str,
) -> (result: Result<Option<&'a [u8]>, String>)
    requires
        bytes.len() >= HEADER_LEN,
    ensures
        match (result, stored_feature_of(bytes@, *header, feature, size_name@, name@)) {
            (Ok(Some(piece)), Ok(Some(told))) => piece@ == told,
            (Ok(None), Ok(None)) => true,
            (Err(error), Err(told)) => error@ == told,
            _ => false,
        },
{
    let sections = read_stored_sections(bytes, header)?;
    match find_section(&sections, feature) {
        Some(section) => {
            let piece = read_piece(bytes, section.offset, section.size, size_name, name)?;
            Ok(Some(piece))
        },
        None => Ok(None),
    }
}

// ---------------------------------------------------------------------------
// Layouts
// ---------------------------------------------------------------------------

/// The event ids of an attribute, whose piece of the file is taken first.
pub open spec fn stored_attr_ids_of(bytes: Seq<u8>, attr: PerfFileAttr) -> Result<
    Seq<u64>,
    Seq<char>,
> {
    match piece_of(
        bytes,
        attr.ids_offset,
        attr.ids_size,
        "perf attr id section size"@,
        "perf attr id section"@,
    ) {
        Err(error) => Err(error),
        Ok(piece) => attr_ids_of(piece, PerfFileAttr { ids_offset: 0, ..attr }),
    }
}

/// The event ids of the first `count` attributes, or the first error.
pub open spec fn stored_ids_of(bytes: Seq<u8>, attrs: Seq<PerfFileAttr>, count: int) -> Result<
    Seq<Seq<u64>>,
    Seq<char>,
>
    decreases count,
{
    if count <= 0 {
        Ok(Seq::empty())
    } else {
        match stored_ids_of(bytes, attrs, count - 1) {
            Err(error) => Err(error),
            Ok(before) => match stored_attr_ids_of(bytes, attrs[count - 1]) {
                Err(error) => Err(error),
                Ok(ids) => Ok(before.push(ids)),
            },
        }
    }
}

proof fn stored_ids_error(bytes: Seq<u8>, attrs: Seq<PerfFileAttr>, count: int, total: int)
    requires
        0 <= count <= total,
        stored_ids_of(bytes, attrs, count) is Err,
    ensures
        stored_ids_of(bytes, attrs, total) == stored_ids_of(bytes, attrs, count),
    decreases total - count,
{
    if count < total {
        assert(stored_ids_of(bytes, attrs, count + 1) == stored_ids_of(bytes, attrs, count));
        stored_ids_error(bytes, attrs, count + 1, total);
    }
}

fn read_stored_attr_ids(bytes: &[u8], attr: &PerfFileAttr) -> (result: Result<Vec<u64>, String>)
    ensures
        outcome(result) == stored_attr_ids_of(bytes@, *attr),
{
    let piece = read_piece(
        bytes,
        attr.ids_offset,
        attr.ids_size,
        "perf attr id section size",
        "perf attr id section",
    )?;
    parse_file_attr_ids(piece, &PerfFileAttr { ids_offset: 0, ..*attr })
}

fn read_stored_ids(bytes: &[u8], attrs: &Vec<PerfFileAttr>) -> (result: Result<
    Vec<Vec<u64>>,
    String,
>)
    ensures
        match result {
            Ok(ids) => stored_ids_of(bytes@, attrs@, attrs@.len() as int) == Ok::<
                Seq<Seq<u64>>,
                Seq<char>,
            >(views(ids@)) && ids@.len() == attrs@.len(),
            Err(error) => stored_ids_of(bytes@, attrs@, attrs@.len() as int) == Err::<
                Seq<Seq<u64>>,
                Seq<char>,
            >(error@),
        },
{
    let mut ids: Vec<Vec<u64>> = Vec::with_capacity(attrs.len());
    let mut index: usize = 0;
    assert(views(ids@) =~= Seq::empty());
    while index < attrs.len()
        invariant
            index <= attrs@.len(),
            ids@.len() == index,
            stored_ids_of(bytes@, attrs@, index as int) == Ok::<Seq<Seq<u64>>, Seq<char>>(
                views(ids@),
            ),
        decreases attrs@.len() - index,
    {
        let ghost before = views(ids@);
        match read_stored_attr_ids(bytes, &attrs[index]) {
            Ok(own) => {
                ids.push(own);
                assert(views(ids@) =~= before.push(own@));
            },
            Err(error) => {
                proof {
                    stored_ids_error(bytes@, attrs@, index + 1, attrs@.len() as int);
                }
                return Err(error);
            },
        }
        index += 1;
    }
    Ok(ids)
}

/// The event descriptions of a file; none without their feature.
pub open spec fn stored_descs_of(bytes: Seq<u8>, header: PerfHeader) -> Result<
    Seq<EventDescModel>,
    Seq<char>,
> {
    match stored_feature_of(
        bytes,
        header,
        HEADER_EVENT_DESC_FEATURE,
        "event desc feature size"@,
        "event desc feature payload"@,
    ) {
        Err(error) => Err(error),
        Ok(None) => Ok(Seq::empty()),
        Ok(Some(payload)) => Ok(event_descs_of(payload)),
    }
}

/// The header of an attribute section on its own.
pub open spec fn section_header(header: PerfHeader) -> PerfHeader {
    PerfHeader { attr_offset: 0, data_offset: 0, data_size: 0, ..header }
}

/// The attributes of a file, whose section is taken first.
pub open spec fn stored_attrs_of(bytes: Seq<u8>, header: PerfHeader) -> Result<
    Seq<PerfFileAttr>,
    Seq<char>,
> {
    match piece_of(
        bytes,
        header.attr_offset,
        header.attr_size,
        "perf attr section size"@,
        "perf attr section"@,
    ) {
        Err(error) => Err(error),
        Ok(piece) => file_attrs_of(piece, section_header(header)),
    }
}

/// The events of a file.
pub open spec fn stored_layouts_of(bytes: Seq<u8>, header: PerfHeader) -> Result<
    LayoutsModel,
    Seq<char>,
> {
    match stored_attrs_of(bytes, header) {
        Err(error) => Err(error),
        Ok(attrs) => match stored_ids_of(bytes, attrs, attrs.len() as int) {
            Err(error) => Err(error),
            Ok(ids) => match stored_descs_of(bytes, header) {
                Err(error) => Err(error),
                Ok(entries) => Ok(layouts_from(attrs, ids, entries)),
            },
        },
    }
}

/// Reads the events of a file on disk.
///
/// # Errors
///
/// Returns an error when the file ends in front of the attributes, their ids or the event
/// descriptions, or when an attribute or its ids are malformed.
pub fn sample_layouts_from_file(bytes: &[u8], header: PerfHeader) -> (result: Result<
    SampleLayouts,
    String,
>)
    requires
        bytes.len() >= HEADER_LEN,
    ensures
        outcome(result) == stored_layouts_of(bytes@, header),
        result matches Ok(layouts) ==> layouts@.wf(),
{
    let piece = read_piece(
        bytes,
        header.attr_offset,
        header.attr_size,
        "perf attr section size",
        "perf attr section",
    )?;
    let attrs = parse_file_attrs(
        piece,
        PerfHeader { attr_offset: 0, data_offset: 0, data_size: 0, ..header },
    )?;
    let ids = read_stored_ids(bytes, &attrs)?;
    let payload = read_stored_feature(
        bytes,
        &header,
        HEADER_EVENT_DESC_FEATURE,
        "event desc feature size",
        "event desc feature payload",
    )?;
    let event_desc: Vec<EventDescEntry> = match payload {
        Some(payload) => parse_event_desc_entries(payload),
        None => Vec::new(),
    };
    assert(payload is None ==> views(event_desc@) =~= Seq::<EventDescModel>::empty());
    Ok(build_layouts(&attrs, &ids, &event_desc))
}

// ---------------------------------------------------------------------------
// Build ids and the machine
// ---------------------------------------------------------------------------

/// The build-id events of a file's feature section. Records are not asked.
pub open spec fn stored_events_of(bytes: Seq<u8>, header: PerfHeader) -> Result<
    Seq<BuildIdModel>,
    Seq<char>,
> {
    match stored_feature_of(
        bytes,
        header,
        HEADER_BUILD_ID,
        "build-id feature size"@,
        "build-id feature payload"@,
    ) {
        Err(error) => Err(error),
        Ok(None) => Ok(Seq::empty()),
        Ok(Some(payload)) => build_id_events_from(payload, 0),
    }
}

/// The build ids of a file's feature section by file name.
pub open spec fn stored_build_ids_of(bytes: Seq<u8>, header: PerfHeader) -> Result<
    Map<Seq<char>, Seq<u8>>,
    Seq<char>,
> {
    match stored_events_of(bytes, header) {
        Err(error) => Err(error),
        Ok(events) => build_ids_by_name(events, events.len() as int),
    }
}

/// Reads the build ids of a file's feature section by file name.
///
/// # Errors
///
/// Returns an error when the file ends in front of the section, or the section is malformed.
pub fn header_build_ids_by_filename_from_file(bytes: &[u8], header: &PerfHeader) -> (result: Result<
    NamedBytes,
    String,
>)
    requires
        bytes.len() >= HEADER_LEN,
    ensures
        outcome(result) == stored_build_ids_of(bytes@, *header),
        result matches Ok(table) ==> table.wf(),
{
    let payload = read_stored_feature(
        bytes,
        header,
        HEADER_BUILD_ID,
        "build-id feature size",
        "build-id feature payload",
    )?;
    let events = match payload {
        Some(payload) => parse_build_id_events(payload)?,
        None => Vec::new(),
    };
    assert(payload is None ==> views(events@) =~= Seq::<BuildIdModel>::empty());
    collect_build_ids(&events)
}

/// The name of the machine's architecture, where the file states one.
pub open spec fn stored_arch_of(bytes: Seq<u8>, header: PerfHeader) -> Result<
    Option<Seq<char>>,
    Seq<char>,
> {
    match stored_feature_of(
        bytes,
        header,
        HEADER_ARCH_FEATURE,
        "arch feature size"@,
        "arch feature payload"@,
    ) {
        Err(error) => Err(error),
        Ok(None) => Ok(None),
        Ok(Some(payload)) => match arch_name_of(payload) {
            Err(error) => Err(error),
            Ok(name) => Ok(Some(name)),
        },
    }
}

/// Reads the name of the machine's architecture of a file on disk.
///
/// # Errors
///
/// Returns an error when the file ends in front of the feature, or the feature is malformed.
pub fn header_arch_from_file(bytes: &[u8], header: &PerfHeader) -> (result: Result<
    Option<String>,
    String,
>)
    requires
        bytes.len() >= HEADER_LEN,
    ensures
        match result {
            Ok(name) => stored_arch_of(bytes@, *header) == Ok::<Option<Seq<char>>, Seq<char>>(
                text_view(name),
            ),
            Err(error) => stored_arch_of(bytes@, *header) == Err::<Option<Seq<char>>, Seq<char>>(
                error@,
            ),
        },
{
    let payload = read_stored_feature(
        bytes,
        header,
        HEADER_ARCH_FEATURE,
        "arch feature size",
        "arch feature payload",
    )?;
    match payload {
        Some(payload) => {
            let name = parse_arch_name(payload)?;
            Ok(Some(name))
        },
        None => Ok(None),
    }
}

// ---------------------------------------------------------------------------
// All of it
// ---------------------------------------------------------------------------

/// The header of a file on disk.
pub open spec fn stored_header_of(bytes: Seq<u8>) -> Result<PerfHeader, Seq<char>> {
    if bytes.len() < HEADER_LEN {
        Err(cut_short("perf.data header"@))
    } else {
        header_of(bytes)
    }
}

/// What a file on disk says before its records.
pub open spec fn opening_of(bytes: Seq<u8>) -> Result<PreludeModel, Seq<char>> {
    match stored_header_of(bytes) {
        Err(error) => Err(error),
        Ok(header) => match stored_layouts_of(bytes, header) {
            Err(error) => Err(error),
            Ok(layouts) => match stored_build_ids_of(bytes, header) {
                Err(error) => Err(error),
                Ok(build_ids) => match stored_arch_of(bytes, header) {
                    Err(error) => Err(error),
                    Ok(arch) => Ok(
                        PreludeModel { header, layouts, build_ids, arch: arch_from(arch) },
                    ),
                },
            },
        },
    }
}

/// Reads the header of a file on disk.
///
/// # Errors
///
/// Returns an error when the file ends in front of the header's end, or the header is malformed.
pub fn perfdata_header_from_file(bytes: &[u8]) -> (result: Result<PerfHeader, String>)
    ensures
        outcome(result) == stored_header_of(bytes@),
        result is Ok ==> bytes.len() >= HEADER_LEN,
{
    if bytes.len() < HEADER_LEN {
        return Err(cut_short_message("perf.data header"));
    }
    parse_header(bytes)
}

/// Reads what a file on disk says before its records.
///
/// # Errors
///
/// Returns an error when the header, the attributes or the features cannot be read.
pub fn open_file(bytes: &[u8]) -> (result: Result<FilePrelude, String>)
    ensures
        match (result, opening_of(bytes@)) {
            (Ok(prelude), Ok(model)) => {
                &&& prelude.header == model.header
                &&& prelude.layouts@ == model.layouts
                &&& prelude.layouts@.wf()
                &&& prelude.accumulator.wf()
                &&& prelude.accumulator@ == FoldModel::nothing(model.build_ids, model.arch)
            },
            (Err(error), Err(told)) => error@ == told,
            _ => false,
        },
{
    let header = perfdata_header_from_file(bytes)?;
    let layouts = sample_layouts_from_file(bytes, header)?;
    let build_ids = header_build_ids_by_filename_from_file(bytes, &header)?;
    let arch = header_arch_from_file(bytes, &header)?;
    let accumulator = FoldAccumulator::new(build_ids, perf_arch_from_header(&arch));
    Ok(FilePrelude { header, layouts, accumulator })
}

// ---------------------------------------------------------------------------
// Laws
// ---------------------------------------------------------------------------

/// A piece of a file is what stands at its place, as long as it is asked for.
pub proof fn pieces_are_cut_out_of_files(
    front: Seq<u8>,
    piece: Seq<u8>,
    behind: Seq<u8>,
    size_name: Seq<char>,
    name: Seq<char>,
)
    requires
        front.len() + piece.len() <= u64::MAX,
        piece.len() <= usize::MAX,
    ensures
        piece_of(
            front + piece + behind,
            front.len() as u64,
            piece.len() as u64,
            size_name,
            name,
        ) == Ok::<Seq<u8>, Seq<char>>(piece),
{
    let bytes = front + piece + behind;
    assert(bytes.subrange(front.len() as int, front.len() + piece.len() as int) =~= piece);
    assert(piece.len() == 0 ==> piece =~= Seq::empty());
}

/// The features of a file on disk are those of the file in memory.
pub proof fn stored_features_agree(bytes: Seq<u8>, header: PerfHeader)
    requires
        104 <= bytes.len() <= usize::MAX,
    ensures
        stored_sections_of(bytes, header) matches Ok(sections) ==> sections.len() > 0
            ==> feature_sections_of(bytes, header) == Ok::<Seq<PerfFeatureSection>, Seq<char>>(
            sections,
        ),
        stored_sections_of(bytes, header) == Ok::<Seq<PerfFeatureSection>, Seq<char>>(Seq::empty())
            ==> header_features(bytes).len() == 0,
{
    let features = header_features(bytes);
    let table = header.data_offset + header.data_size;
    if features.len() > 0 {
        entries_are_as_many(bytes, table, features, features.len() as int);
    }
}

proof fn entries_are_as_many(bytes: Seq<u8>, table: int, features: Seq<u16>, count: int)
    requires
        0 <= count <= features.len(),
    ensures
        feature_entries(bytes, table, features, count) matches Ok(entries) ==> entries.len()
            == count,
    decreases count,
{
    if count > 0 {
        entries_are_as_many(bytes, table, features, count - 1);
    }
}

/// The ids of an attribute on disk are those of the file in memory, where the file holds them.
pub proof fn stored_ids_agree(bytes: Seq<u8>, attr: PerfFileAttr)
    requires
        bytes.len() <= usize::MAX,
        attr.ids_offset + attr.ids_size <= bytes.len(),
    ensures
        stored_attr_ids_of(bytes, attr) == attr_ids_of(bytes, attr),
{
    let offset = attr.ids_offset as int;
    let size = attr.ids_size as int;
    let piece = bytes.subrange(offset, offset + size);
    if size == 0 {
        assert(piece =~= Seq::empty());
    }
    let cut = ids_between(piece, 0, size);
    let whole = ids_between(bytes, offset, offset + size);
    assert forall|i: int| 0 <= i < cut.len() implies #[trigger] cut[i] == whole[i] by {
        let from = 8 * i;
        let place = offset + 8 * i;
        lowest_bytes_come_first(piece, from);
        lowest_bytes_come_first(bytes, place);
        assert(piece[from] == bytes[place] && piece[from + 1] == bytes[place + 1] && piece[from + 2]
            == bytes[place + 2] && piece[from + 3] == bytes[place + 3] && piece[from + 4]
            == bytes[place + 4] && piece[from + 5] == bytes[place + 5] && piece[from + 6]
            == bytes[place + 6] && piece[from + 7] == bytes[place + 7]);
    }
    assert(cut =~= whole);
}

} // verus!
