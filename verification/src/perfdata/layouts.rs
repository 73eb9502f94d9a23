//! Which layout a sample has: event descriptions, event names, and layouts by event id.

use std::collections::BTreeMap;

use vstd::prelude::*;
use vstd::slice::slice_subrange;
use vstd::utf8::encode_utf8;

use crate::perfdata::attrs::{
    attr_ids_of, file_attrs_of, parse_file_attr_ids, parse_file_attrs, PerfFileAttr,
};
use crate::perfdata::endian::{
    eight_bytes, four_bytes, le_u32, le_u64, u32_at, u64_at, written_numbers_are_read,
};
use crate::perfdata::header::{
    feature_sections_of, parse_feature_sections, PerfFeatureSection, PerfHeader,
};
use crate::perfdata::records::{c_text, parse_c_string, texts_end_at_zero};
use crate::perfdata::samples::{
    truncated, SampleLayout, PERF_SAMPLE_ADDR, PERF_SAMPLE_ID,
    PERF_SAMPLE_IDENTIFIER, PERF_SAMPLE_IP, PERF_SAMPLE_TID,
    PERF_SAMPLE_TIME,
};
use crate::text::{
    decimal, hexadecimal, outcome, push_decimal, push_hexadecimal, size_from_u64, text_view,
    utf8_lossy, views,
};

verus! {

broadcast use {
    vstd::std_specs::control_flow::group_control_flow_axioms,
    vstd::std_specs::btree::group_btree_axioms,
};

/// The feature whose section describes the recorded events.
pub const HEADER_EVENT_DESC_FEATURE: u16 = 12;

// ---------------------------------------------------------------------------
// Event descriptions
// ---------------------------------------------------------------------------

/// A single event description parsed from the `HEADER_EVENT_DESC` feature.
#[derive(Clone, Debug, Eq, PartialEq)]
pub struct EventDescEntry {
    pub name: String,
    pub ids: Vec<u64>,
}

/// The contents of an [`EventDescEntry`].
#[verifier::ext_equal]
pub struct EventDescModel {
    pub name: Seq<char>,
    pub ids: Seq<u64>,
}

impl View for EventDescEntry {
    type V = EventDescModel;

    open spec fn view(&self) -> EventDescModel {
        EventDescModel { name: self.name@, ids: self.ids@ }
    }
}

/// The `count` words that begin at `at`.
pub open spec fn words_at(bytes: Seq<u8>, at: int, count: int) -> Seq<u64> {
    Seq::new(count as nat, |i: int| le_u64(bytes, at + 8 * i))
}

/// The descriptions of `count` events from `offset` on, if all of them are present. Each begins
/// with an attribute of `attr_size` bytes; then follow the number of ids, the length of the
/// name, the name up to its first zero byte, and the ids.
pub open spec fn event_descs_from(payload: Seq<u8>, offset: int, attr_size: int, count: nat) -> Option<
    Seq<EventDescModel>,
>
    decreases count,
{
    if count == 0 {
        Some(Seq::empty())
    } else {
        let at = offset + attr_size;
        let id_count = le_u32(payload, at) as int;
        let name_len = le_u32(payload, at + 4) as int;
        let ids_at = at + 8 + name_len;
        let end = ids_at + 8 * id_count;
        if at + 8 > payload.len() || ids_at > payload.len() || end > payload.len() {
            None
        } else {
            match event_descs_from(payload, end, attr_size, (count - 1) as nat) {
                None => None,
                Some(rest) => Some(
                    seq![
                        EventDescModel {
                            name: c_text(payload.subrange(at + 8, ids_at)),
                            ids: words_at(payload, ids_at, id_count),
                        },
                    ] + rest,
                ),
            }
        }
    }
}

/// The event descriptions of a feature payload; none where the payload is cut short.
pub open spec fn event_descs_of(payload: Seq<u8>) -> Seq<EventDescModel> {
    if payload.len() < 8 {
        Seq::empty()
    } else {
        match event_descs_from(
            payload,
            8,
            le_u32(payload, 4) as int,
            le_u32(payload, 0) as nat,
        ) {
            Some(entries) => entries,
            None => Seq::empty(),
        }
    }
}

/// Parses the `HEADER_EVENT_DESC` feature payload.
///
/// `perf record` writes evsel names verbatim into this feature, and `perf script` prints those
/// names instead of reconstructing them from the attr type/config. The layout is: `nre` (u32,
/// number of events), `attr_sz` (u32, sizeof perf_event_attr), then for each event: `attr_sz`
/// attr bytes, a `nr` (u32) id count, a length-prefixed name string, and `nr` u64 ids. The text
/// of a name ends at its first NUL.
pub fn parse_event_desc_entries(payload: &[u8]) -> (entries: Vec<EventDescEntry>)
    ensures
        views(entries@) == event_descs_of(payload@),
{
    if payload.len() < 8 {
        assert(views(Seq::<EventDescEntry>::empty()) =~= Seq::empty());
        return Vec::new();
    }
    let event_count: u32 = u32_at(payload, 0);
    let attr_size: usize = u32_at(payload, 4) as usize;
    let mut offset: usize = 8;
    let mut entries: Vec<EventDescEntry> = Vec::new();
    let mut left: u32 = event_count;
    let ghost whole = event_descs_from(payload@, 8, attr_size as int, event_count as nat);
    proof {
        if let Some(items) = whole {
            assert(views(entries@) + items =~= items);
        }
    }
    while left > 0
        invariant
            offset <= payload.len(),
            payload.len() >= 8,
            whole == event_descs_from(
                payload@,
                8,
                le_u32(payload@, 4) as int,
                le_u32(payload@, 0) as nat,
            ),
            attr_size == le_u32(payload@, 4),
            whole == match event_descs_from(
                payload@,
                offset as int,
                attr_size as int,
                left as nat,
            ) {
                None => None,
                Some(rest) => Some(views(entries@) + rest),
            },
        decreases left,
    {
        let room: usize = payload.len() - offset;
        assert(views(Seq::<EventDescEntry>::empty()) =~= Seq::empty());
        if attr_size > room || room - attr_size < 8 {
            return Vec::new();
        }
        let at: usize = offset + attr_size;
        let id_count: usize = u32_at(payload, at) as usize;
        let name_len: usize = u32_at(payload, at + 4) as usize;
        let name_room: usize = payload.len() - (at + 8);
        if name_len > name_room {
            return Vec::new();
        }
        let ids_at: usize = at + 8 + name_len;
        let ids_room: usize = payload.len() - ids_at;
        if id_count > ids_room / 8 {
            return Vec::new();
        }
        let name = parse_c_string(slice_subrange(payload, at + 8, ids_at));
        let ids = read_words(payload, ids_at, id_count);
        let entry = EventDescEntry { name, ids };
        let ghost before = views(entries@);
        entries.push(entry);
        offset = ids_at + 8 * id_count;
        left -= 1;
        proof {
            assert(views(entries@) =~= before.push(entry@));
            if let Some(rest) = event_descs_from(
                payload@,
                offset as int,
                attr_size as int,
                left as nat,
            ) {
                assert(before + (seq![entry@] + rest) =~= views(entries@) + rest);
            }
        }
    }
    assert(views(entries@) + Seq::<EventDescModel>::empty() =~= views(entries@));
    entries
}

fn read_words(bytes: &[u8], at: usize, count: usize) -> (words: Vec<u64>)
    requires
        at + 8 * count <= bytes.len(),
    ensures
        words@ == words_at(bytes@, at as int, count as int),
{
    let mut words: Vec<u64> = Vec::with_capacity(count);
    let mut i: usize = 0;
    while i < count
        invariant
            i <= count,
            at + 8 * count <= bytes.len(),
            words@ == words_at(bytes@, at as int, i as int),
        decreases count - i,
    {
        words.push(u64_at(bytes, at + 8 * i));
        i += 1;
        assert(words@ =~= words_at(bytes@, at as int, i as int));
    }
    words
}

/// The first section of a feature from index `from` on.
pub open spec fn section_for(
    sections: Seq<PerfFeatureSection>,
    feature: u16,
    from: int,
) -> Option<PerfFeatureSection>
    decreases sections.len() - from,
{
    if from >= sections.len() {
        None
    } else if sections[from].feature == feature {
        Some(sections[from])
    } else {
        section_for(sections, feature, from + 1)
    }
}

/// Finds the first section of a feature.
pub fn find_section(
    sections: &Vec<PerfFeatureSection>,
    feature: u16,
) -> (section: Option<PerfFeatureSection>)
    ensures
        section == section_for(sections@, feature, 0),
{
    let mut index: usize = 0;
    while index < sections.len()
        invariant
            index <= sections@.len(),
            section_for(sections@, feature, 0) == section_for(sections@, feature, index as int),
        decreases sections@.len() - index,
    {
        if sections[index].feature == feature {
            return Some(sections[index]);
        }
        index += 1;
    }
    None
}

/// The event descriptions of a file; none where it has none that can be read.
pub open spec fn file_event_descs_of(bytes: Seq<u8>, header: PerfHeader) -> Seq<EventDescModel> {
    match feature_sections_of(bytes, header) {
        Err(_) => Seq::empty(),
        Ok(sections) => match section_for(sections, HEADER_EVENT_DESC_FEATURE, 0) {
            None => Seq::empty(),
            Some(section) => if section.offset + section.size > bytes.len() {
                Seq::empty()
            } else {
                event_descs_of(
                    bytes.subrange(section.offset as int, section.offset + section.size),
                )
            },
        },
    }
}

/// Reads the event descriptions of a file.
pub fn event_desc_entries_from_bytes(
    bytes: &[u8],
    header: PerfHeader,
) -> (entries: Vec<EventDescEntry>)
    ensures
        views(entries@) == file_event_descs_of(bytes@, header),
{
    assert(views(Seq::<EventDescEntry>::empty()) =~= Seq::empty());
    let total: usize = bytes.len();
    let sections = match parse_feature_sections(bytes, &header) {
        Ok(sections) => sections,
        Err(_) => return Vec::new(),
    };
    let section = match find_section(&sections, HEADER_EVENT_DESC_FEATURE) {
        Some(section) => section,
        None => return Vec::new(),
    };
    let offset: usize = match size_from_u64(section.offset) {
        Some(offset) => offset,
        None => return Vec::new(),
    };
    let size: usize = match size_from_u64(section.size) {
        Some(size) => size,
        None => return Vec::new(),
    };
    if offset > total || size > total - offset {
        return Vec::new();
    }
    parse_event_desc_entries(slice_subrange(bytes, offset, offset + size))
}

// ---------------------------------------------------------------------------
// Event names
// ---------------------------------------------------------------------------

/// Whether two lists of ids have one in common.
pub open spec fn share_id(left: Seq<u64>, right: Seq<u64>) -> bool {
    exists|i: int| 0 <= i < left.len() && right.contains(#[trigger] left[i])
}

/// The name of the first description from index `from` on that shares an id.
pub open spec fn name_by_ids(entries: Seq<EventDescModel>, ids: Seq<u64>, from: int) -> Option<
    Seq<char>,
>
    decreases entries.len() - from,
{
    if from >= entries.len() {
        None
    } else if share_id(entries[from].ids, ids) {
        Some(entries[from].name)
    } else {
        name_by_ids(entries, ids, from + 1)
    }
}

/// The described name of the event at `index`: by a shared id, or else by its place.
pub open spec fn described_name(
    index: int,
    ids: Option<Seq<u64>>,
    entries: Seq<EventDescModel>,
) -> Option<Seq<char>> {
    let by_id = match ids {
        Some(ids) => name_by_ids(entries, ids, 0),
        None => None,
    };
    match by_id {
        Some(name) => Some(name),
        None => if index < entries.len() {
            Some(entries[index].name)
        } else {
            None
        },
    }
}

fn ids_contain(ids: &Vec<u64>, id: u64) -> (found: bool)
    ensures
        found == ids@.contains(id),
{
    let mut i: usize = 0;
    while i < ids.len()
        invariant
            i <= ids@.len(),
            forall|j: int| 0 <= j < i ==> ids@[j] != id,
        decreases ids@.len() - i,
    {
        if ids[i] == id {
            return true;
        }
        i += 1;
    }
    false
}

fn ids_shared(left: &Vec<u64>, right: &Vec<u64>) -> (found: bool)
    ensures
        found == share_id(left@, right@),
{
    let mut i: usize = 0;
    while i < left.len()
        invariant
            i <= left@.len(),
            forall|j: int| 0 <= j < i ==> !right@.contains(#[trigger] left@[j]),
        decreases left@.len() - i,
    {
        if ids_contain(right, left[i]) {
            return true;
        }
        i += 1;
    }
    false
}

/// The ids of an optional list.
pub open spec fn ids_view(ids: Option<&Vec<u64>>) -> Option<Seq<u64>> {
    match ids {
        Some(ids) => Some(ids@),
        None => None,
    }
}

/// Finds the described name of an attribute: by a shared id, or else by its place.
pub fn event_desc_name_for_attr(
    index: usize,
    attr_ids: Option<&Vec<u64>>,
    event_desc: &[EventDescEntry],
) -> (name: Option<String>)
    ensures
        text_view(name) == described_name(index as int, ids_view(attr_ids), views(event_desc@)),
{
    let ghost all = views(event_desc@);
    if let Some(ids) = attr_ids {
        let mut i: usize = 0;
        while i < event_desc.len()
            invariant
                i <= event_desc.len(),
                all == views(event_desc@),
                attr_ids == Some(ids),
                name_by_ids(all, ids@, 0) == name_by_ids(all, ids@, i as int),
            decreases event_desc.len() - i,
        {
            assert(all[i as int] == event_desc@[i as int]@);
            if ids_shared(&event_desc[i].ids, ids) {
                return Some(event_desc[i].name.clone());
            }
            i += 1;
        }
    }
    if index < event_desc.len() {
        assert(all[index as int] == event_desc@[index as int]@);
        Some(event_desc[index].name.clone())
    } else {
        None
    }
}

/// The name of a hardware event.
pub open spec fn hardware_name(config: u64) -> Seq<char> {
    let kind = config & 0xffff_ffff;
    if kind == 0 {
        "cycles"@
    } else if kind == 1 {
        "instructions"@
    } else if kind == 2 {
        "cache-references"@
    } else if kind == 3 {
        "cache-misses"@
    } else if kind == 4 {
        "branches"@
    } else if kind == 5 {
        "branch-misses"@
    } else if kind == 6 {
        "bus-cycles"@
    } else if kind == 7 {
        "stalled-cycles-frontend"@
    } else if kind == 8 {
        "stalled-cycles-backend"@
    } else if kind == 9 {
        "ref-cycles"@
    } else {
        "unknown-hardware"@
    }
}

fn hardware_event_name(config: u64) -> (name: &'static str)
    ensures
        name@ == hardware_name(config),
{
    match config & 0xffff_ffff {
        0 => "cycles",
        1 => "instructions",
        2 => "cache-references",
        3 => "cache-misses",
        4 => "branches",
        5 => "branch-misses",
        6 => "bus-cycles",
        7 => "stalled-cycles-frontend",
        8 => "stalled-cycles-backend",
        9 => "ref-cycles",
        _ => "unknown-hardware",
    }
}

/// The name of a software event.
pub open spec fn software_name(config: u64) -> Seq<char> {
    if config == 0 {
        "cpu-clock"@
    } else if config == 1 {
        "task-clock"@
    } else if config == 2 {
        "page-faults"@
    } else if config == 3 {
        "context-switches"@
    } else if config == 4 {
        "cpu-migrations"@
    } else if config == 5 {
        "minor-faults"@
    } else if config == 6 {
        "major-faults"@
    } else if config == 7 {
        "alignment-faults"@
    } else if config == 8 {
        "emulation-faults"@
    } else if config == 9 {
        "dummy"@
    } else {
        "unknown-software"@
    }
}

fn software_event_name(config: u64) -> (name: &'static str)
    ensures
        name@ == software_name(config),
{
    match config {
        0 => "cpu-clock",
        1 => "task-clock",
        2 => "page-faults",
        3 => "context-switches",
        4 => "cpu-migrations",
        5 => "minor-faults",
        6 => "major-faults",
        7 => "alignment-faults",
        8 => "emulation-faults",
        9 => "dummy",
        _ => "unknown-software",
    }
}

/// The name that an attribute's type and configuration stand for.
pub open spec fn attr_name(attr: PerfFileAttr) -> Seq<char> {
    if attr.event_type == 0 {
        hardware_name(attr.config)
    } else if attr.event_type == 1 {
        software_name(attr.config)
    } else if attr.event_type == 2 {
        "unknown tracepoint"@
    } else if attr.event_type == 3 {
        "invalid-cache"@
    } else if attr.event_type == 4 {
        "raw 0x"@ + hexadecimal(attr.config as nat, 1)
    } else if attr.event_type == 5 {
        "breakpoint"@
    } else {
        "unknown attr type: "@ + decimal(attr.event_type as nat)
    }
}

/// Names an event by its attribute's type and configuration.
pub fn perf_event_name(attr: &PerfFileAttr) -> (name: String)
    ensures
        name@ == attr_name(*attr),
{
    match attr.event_type {
        0 => hardware_event_name(attr.config).to_string(),
        1 => software_event_name(attr.config).to_string(),
        2 => "unknown tracepoint".to_string(),
        3 => "invalid-cache".to_string(),
        4 => {
            let mut name = "raw 0x".to_string();
            push_hexadecimal(&mut name, attr.config, 1);
            name
        },
        5 => "breakpoint".to_string(),
        _ => {
            let mut name = "unknown attr type: ".to_string();
            push_decimal(&mut name, attr.event_type as u128);
            name
        },
    }
}

/// The name of the event at `index`: the described one, or else what its attribute stands for.
pub open spec fn event_name(
    attrs: Seq<PerfFileAttr>,
    ids: Seq<Seq<u64>>,
    entries: Seq<EventDescModel>,
    index: int,
) -> Seq<char> {
    let own_ids = if index < ids.len() {
        Some(ids[index])
    } else {
        None
    };
    match described_name(index, own_ids, entries) {
        Some(name) => name,
        None => attr_name(attrs[index]),
    }
}

/// The names of all events.
pub open spec fn event_names_of(
    attrs: Seq<PerfFileAttr>,
    ids: Seq<Seq<u64>>,
    entries: Seq<EventDescModel>,
) -> Seq<Seq<char>> {
    Seq::new(attrs.len(), |i: int| event_name(attrs, ids, entries, i))
}

/// Builds the per-attr event names `perf script` would print.
///
/// Prefers the verbatim evsel names from `HEADER_EVENT_DESC`, matched to each
/// attr by shared sample id (and by event index as a fallback). Falls back to reconstructing
/// the name from the attr type/config when no description matches.
pub fn build_event_names(
    attrs: &[PerfFileAttr],
    attr_ids: &[Vec<u64>],
    event_desc: &[EventDescEntry],
) -> (names: Vec<String>)
    ensures
        views(names@) == event_names_of(attrs@, views(attr_ids@), views(event_desc@)),
{
    let mut names: Vec<String> = Vec::with_capacity(attrs.len());
    let ghost all = event_names_of(attrs@, views(attr_ids@), views(event_desc@));
    let mut index: usize = 0;
    while index < attrs.len()
        invariant
            index <= attrs.len(),
            all == event_names_of(attrs@, views(attr_ids@), views(event_desc@)),
            views(names@) == all.subrange(0, index as int),
        decreases attrs.len() - index,
    {
        let ids: Option<&Vec<u64>> = if index < attr_ids.len() {
            Some(&attr_ids[index])
        } else {
            None
        };
        let name = match event_desc_name_for_attr(index, ids, event_desc) {
            Some(name) => name,
            None => perf_event_name(&attrs[index]),
        };
        let ghost before = views(names@);
        names.push(name);
        index += 1;
        proof {
            assert(views(names@) =~= before.push(name@));
            assert(all.subrange(0, index as int) =~= all.subrange(0, index - 1).push(
                all[index - 1],
            ));
        }
    }
    assert(all.subrange(0, index as int) =~= all);
    names
}

// ---------------------------------------------------------------------------
// Layouts
// ---------------------------------------------------------------------------

/// The layout of an event's samples, and the event's name.
#[derive(Clone, Debug)]
pub struct SampleEventLayout {
    pub layout: SampleLayout,
    pub event_name: String,
}

/// The contents of a [`SampleEventLayout`].
#[verifier::ext_equal]
pub struct EventModel {
    pub layout: SampleLayout,
    pub event_name: Seq<char>,
}

impl View for SampleEventLayout {
    type V = EventModel;

    open spec fn view(&self) -> EventModel {
        EventModel { layout: self.layout, event_name: self.event_name@ }
    }
}

/// The events of a file, and which event an id stands for.
#[derive(Debug)]
pub struct SampleLayouts {
    pub events: Vec<SampleEventLayout>,
    pub by_identifier: BTreeMap<u64, usize>,
    pub event_name_width: usize,
}

/// The contents of a [`SampleLayouts`].
#[verifier::ext_equal]
pub struct LayoutsModel {
    pub events: Seq<EventModel>,
    pub by_identifier: Map<u64, usize>,
    pub event_name_width: int,
}

impl View for SampleLayouts {
    type V = LayoutsModel;

    open spec fn view(&self) -> LayoutsModel {
        LayoutsModel {
            events: views(self.events@),
            by_identifier: self.by_identifier@,
            event_name_width: self.event_name_width as int,
        }
    }
}

impl LayoutsModel {
    /// Whether ids stand for events that exist.
    pub open spec fn wf(self) -> bool {
        forall|id: u64| #[trigger]
            self.by_identifier.contains_key(id) ==> self.by_identifier[id] < self.events.len()
    }
}

impl Default for SampleLayouts {
    fn default() -> (layouts: SampleLayouts)
        ensures
            layouts@ == (LayoutsModel {
                events: Seq::empty(),
                by_identifier: Map::empty(),
                event_name_width: 0,
            }),
    {
        let layouts = SampleLayouts {
            events: Vec::new(),
            by_identifier: BTreeMap::new(),
            event_name_width: 0,
        };
        assert(views(layouts.events@) =~= Seq::<EventModel>::empty());
        layouts
    }
}

/// The layout that an attribute states.
pub open spec fn layout_of(attr: PerfFileAttr) -> SampleLayout {
    SampleLayout {
        sample_type: attr.sample_type,
        read_format: attr.read_format,
        branch_sample_type: attr.branch_sample_type,
        sample_regs_user: attr.sample_regs_user,
        sample_regs_intr: attr.sample_regs_intr,
        sample_id_all: attr.sample_id_all,
    }
}

/// The layout that an attribute states.
pub fn layout_from_attr(attr: &PerfFileAttr) -> (layout: SampleLayout)
    ensures
        layout == layout_of(*attr),
{
    SampleLayout {
        sample_type: attr.sample_type,
        read_format: attr.read_format,
        branch_sample_type: attr.branch_sample_type,
        sample_regs_user: attr.sample_regs_user,
        sample_regs_intr: attr.sample_regs_intr,
        sample_id_all: attr.sample_id_all,
    }
}

/// The ids of the first `count` attributes, or the first error.
pub open spec fn all_ids_of(bytes: Seq<u8>, attrs: Seq<PerfFileAttr>, count: int) -> Result<
    Seq<Seq<u64>>,
    Seq<char>,
>
    decreases count,
{
    if count <= 0 {
        Ok(Seq::empty())
    } else {
        match all_ids_of(bytes, attrs, count - 1) {
            Err(error) => Err(error),
            Ok(before) => match attr_ids_of(bytes, attrs[count - 1]) {
                Err(error) => Err(error),
                Ok(ids) => Ok(before.push(ids)),
            },
        }
    }
}

/// The map with each of the first `count` ids standing for an event.
pub open spec fn with_ids(
    map: Map<u64, usize>,
    ids: Seq<u64>,
    event: usize,
    count: int,
) -> Map<u64, usize>
    decreases count,
{
    if count <= 0 {
        map
    } else {
        with_ids(map, ids, event, count - 1).insert(ids[count - 1], event)
    }
}

/// Which event an id stands for, by the first `count` events; a later event takes an id over.
pub open spec fn ids_to_events(ids: Seq<Seq<u64>>, count: int) -> Map<u64, usize>
    decreases count,
{
    if count <= 0 {
        Map::empty()
    } else {
        with_ids(
            ids_to_events(ids, count - 1),
            ids[count - 1],
            (count - 1) as usize,
            ids[count - 1].len() as int,
        )
    }
}

/// The length in bytes of the longest of the first `count` names.
pub open spec fn widest(names: Seq<Seq<char>>, count: int) -> int
    decreases count,
{
    if count <= 0 {
        0
    } else {
        let width = encode_utf8(names[count - 1]).len() as int;
        let before = widest(names, count - 1);
        if width > before {
            width
        } else {
            before
        }
    }
}

/// The events that attributes, their ids and event descriptions stand for.
pub open spec fn layouts_from(
    attrs: Seq<PerfFileAttr>,
    ids: Seq<Seq<u64>>,
    entries: Seq<EventDescModel>,
) -> LayoutsModel {
    let names = event_names_of(attrs, ids, entries);
    LayoutsModel {
        events: Seq::new(
            attrs.len(),
            |i: int| EventModel { layout: layout_of(attrs[i]), event_name: names[i] },
        ),
        by_identifier: ids_to_events(ids, ids.len() as int),
        event_name_width: widest(names, names.len() as int),
    }
}

/// The events of a file.
pub open spec fn layouts_of(bytes: Seq<u8>, header: PerfHeader) -> Result<LayoutsModel, Seq<char>> {
    match file_attrs_of(bytes, header) {
        Err(error) => Err(error),
        Ok(attrs) => match all_ids_of(bytes, attrs, attrs.len() as int) {
            Err(error) => Err(error),
            Ok(ids) => Ok(layouts_from(attrs, ids, file_event_descs_of(bytes, header))),
        },
    }
}

proof fn all_ids_error(bytes: Seq<u8>, attrs: Seq<PerfFileAttr>, count: int, total: int)
    requires
        0 <= count <= total,
        all_ids_of(bytes, attrs, count) is Err,
    ensures
        all_ids_of(bytes, attrs, total) == all_ids_of(bytes, attrs, count),
    decreases total - count,
{
    if count < total {
        assert(all_ids_of(bytes, attrs, count + 1) == all_ids_of(bytes, attrs, count));
        all_ids_error(bytes, attrs, count + 1, total);
    }
}

fn parse_all_ids(bytes: &[u8], attrs: &Vec<PerfFileAttr>) -> (result: Result<Vec<Vec<u64>>, String>)
    ensures
        match result {
            Ok(ids) => all_ids_of(bytes@, attrs@, attrs@.len() as int) == Ok::<
                Seq<Seq<u64>>,
                Seq<char>,
            >(views(ids@)) && ids@.len() == attrs@.len(),
            Err(error) => all_ids_of(bytes@, attrs@, attrs@.len() as int) == Err::<
                Seq<Seq<u64>>,
                Seq<char>,
            >(error@),
        },
{
    let mut ids: Vec<Vec<u64>> = Vec::with_capacity(attrs.len());
    let mut index: usize = 0;
    assert(views(ids@) =~= Seq::empty());
    while index < attrs.len()
        invariant
            index <= attrs@.len(),
            ids@.len() == index,
            all_ids_of(bytes@, attrs@, index as int) == Ok::<Seq<Seq<u64>>, Seq<char>>(
                views(ids@),
            ),
        decreases attrs@.len() - index,
    {
        let ghost before = views(ids@);
        match parse_file_attr_ids(bytes, &attrs[index]) {
            Ok(own) => {
                ids.push(own);
                assert(views(ids@) =~= before.push(own@));
            },
            Err(error) => {
                proof {
                    all_ids_error(bytes@, attrs@, index + 1, attrs@.len() as int);
                }
                return Err(error);
            },
        }
        index += 1;
    }
    Ok(ids)
}

/// Ids stand for events that exist.
proof fn ids_to_events_in_range(ids: Seq<Seq<u64>>, count: int)
    requires
        0 <= count <= usize::MAX,
    ensures
        forall|id: u64| #[trigger]
            ids_to_events(ids, count).contains_key(id) ==> ids_to_events(ids, count)[id] < count,
    decreases count,
{
    if count > 0 {
        ids_to_events_in_range(ids, count - 1);
        with_ids_in_range(
            ids_to_events(ids, count - 1),
            ids[count - 1],
            (count - 1) as usize,
            ids[count - 1].len() as int,
        );
    }
}

proof fn with_ids_in_range(map: Map<u64, usize>, ids: Seq<u64>, event: usize, count: int)
    requires
        forall|id: u64| #[trigger] map.contains_key(id) ==> map[id] < event,
    ensures
        forall|id: u64| #[trigger]
            with_ids(map, ids, event, count).contains_key(id) ==> with_ids(
                map,
                ids,
                event,
                count,
            )[id] <= event,
    decreases count,
{
    if count > 0 {
        with_ids_in_range(map, ids, event, count - 1);
        let before = with_ids(map, ids, event, count - 1);
        assert forall|id: u64| #[trigger]
            with_ids(map, ids, event, count).contains_key(id) implies with_ids(
            map,
            ids,
            event,
            count,
        )[id] <= event by {
            if id != ids[count - 1] {
                assert(before.contains_key(id));
            }
        }
    }
}

/// Builds the events that attributes, their ids and event descriptions stand for.
pub fn build_layouts(
    attrs: &Vec<PerfFileAttr>,
    ids: &Vec<Vec<u64>>,
    event_desc: &Vec<EventDescEntry>,
) -> (layouts: SampleLayouts)
    requires
        attrs@.len() == ids@.len(),
    ensures
        layouts@ == layouts_from(attrs@, views(ids@), views(event_desc@)),
        layouts@.wf(),
{
    let names = build_event_names(attrs.as_slice(), ids.as_slice(), event_desc.as_slice());
    let ghost all_names = views(names@);
    let ghost all_ids = views(ids@);
    let ghost expected = layouts_from(attrs@, all_ids, views(event_desc@));
    let mut layouts = SampleLayouts::default();
    let mut index: usize = 0;
    while index < attrs.len()
        invariant
            index <= attrs@.len(),
            attrs@.len() == ids@.len(),
            attrs@.len() == names@.len(),
            all_ids == views(ids@),
            all_names == views(names@),
            all_names == event_names_of(attrs@, all_ids, views(event_desc@)),
            expected == layouts_from(attrs@, all_ids, views(event_desc@)),
            views(layouts.events@) == expected.events.subrange(0, index as int),
            layouts.by_identifier@ == ids_to_events(all_ids, index as int),
            layouts.event_name_width == widest(all_names, index as int),
        decreases attrs@.len() - index,
    {
        let ghost before = views(layouts.events@);
        let event = SampleEventLayout {
            layout: layout_from_attr(&attrs[index]),
            event_name: names[index].clone(),
        };
        assert(all_names[index as int] == names@[index as int]@);
        assert(all_ids[index as int] == ids@[index as int]@);
        let width: usize = names[index].as_str().as_bytes().len();
        if width > layouts.event_name_width {
            layouts.event_name_width = width;
        }
        layouts.events.push(event);
        proof {
            assert(views(layouts.events@) =~= before.push(event@));
            assert(expected.events.subrange(0, index + 1) =~= expected.events.subrange(
                0,
                index as int,
            ).push(event@));
        }
        let mut at: usize = 0;
        while at < ids[index].len()
            invariant
                index < ids@.len(),
                at <= ids@[index as int]@.len(),
                layouts.by_identifier@ == with_ids(
                    ids_to_events(all_ids, index as int),
                    ids@[index as int]@,
                    index,
                    at as int,
                ),
                views(layouts.events@) == expected.events.subrange(0, index + 1),
                layouts.event_name_width == widest(all_names, index + 1),
            decreases ids@[index as int]@.len() - at,
        {
            layouts.by_identifier.insert(ids[index][at], index);
            at += 1;
        }
        index += 1;
    }
    proof {
        assert(expected.events.subrange(0, index as int) =~= expected.events);
        ids_to_events_in_range(all_ids, all_ids.len() as int);
    }
    layouts
}

/// Reads the events of a file.
///
/// # Errors
///
/// Returns an error when the attr section or an id section is malformed.
pub fn sample_layouts(bytes: &[u8], header: PerfHeader) -> (result: Result<SampleLayouts, String>)
    ensures
        outcome(result) == layouts_of(bytes@, header),
        result matches Ok(layouts) ==> layouts@.wf(),
{
    let attrs = parse_file_attrs(bytes, header)?;
    let ids = parse_all_ids(bytes, &attrs)?;
    let event_desc = event_desc_entries_from_bytes(bytes, header);
    Ok(build_layouts(&attrs, &ids, &event_desc))
}

// ---------------------------------------------------------------------------
// The layout of a sample
// ---------------------------------------------------------------------------

/// Eight where a field is selected, zero otherwise.
pub open spec fn field_size(sample_type: u64, flag: u64) -> int {
    if sample_type & flag != 0 {
        8
    } else {
        0
    }
}

pub fn field_len(sample_type: u64, flag: u64) -> (len: usize)
    ensures
        len == field_size(sample_type, flag),
        len <= 8,
{
    if sample_type & flag != 0 {
        8
    } else {
        0
    }
}

/// Where a sample holds its event's id behind the fields in front of it.
pub open spec fn id_offset(sample_type: u64) -> int {
    field_size(sample_type, PERF_SAMPLE_IP) + field_size(sample_type, PERF_SAMPLE_TID) + field_size(
        sample_type,
        PERF_SAMPLE_TIME,
    ) + field_size(sample_type, PERF_SAMPLE_ADDR)
}

/// The id of a sample's event: its first word where samples begin with the identifier, or the id
/// field where they hold one.
pub open spec fn sample_event_id_of(payload: Seq<u8>, layout: SampleLayout) -> Result<
    Option<u64>,
    Seq<char>,
> {
    if layout.sample_type & PERF_SAMPLE_IDENTIFIER != 0 {
        if payload.len() < 8 {
            Err(truncated())
        } else {
            Ok(Some(le_u64(payload, 0)))
        }
    } else if layout.sample_type & PERF_SAMPLE_ID == 0 {
        Ok(None)
    } else if payload.len() < id_offset(layout.sample_type) + 8 {
        Err(truncated())
    } else {
        Ok(Some(le_u64(payload, id_offset(layout.sample_type))))
    }
}

fn sample_event_id(payload: &[u8], layout: SampleLayout) -> (result: Result<Option<u64>, String>)
    ensures
        match result {
            Ok(id) => sample_event_id_of(payload@, layout) == Ok::<Option<u64>, Seq<char>>(id),
            Err(error) => sample_event_id_of(payload@, layout) == Err::<Option<u64>, Seq<char>>(
                error@,
            ),
        },
{
    let kind: u64 = layout.sample_type;
    let offset: usize = if kind & PERF_SAMPLE_IDENTIFIER != 0 {
        0
    } else if kind & PERF_SAMPLE_ID == 0 {
        return Ok(None);
    } else {
        field_len(kind, PERF_SAMPLE_IP) + field_len(kind, PERF_SAMPLE_TID) + field_len(
            kind,
            PERF_SAMPLE_TIME,
        ) + field_len(kind, PERF_SAMPLE_ADDR)
    };
    if payload.len() < offset + 8 {
        return Err("perf sample payload is truncated".to_string());
    }
    Ok(Some(u64_at(payload, offset)))
}

impl LayoutsModel {
    /// The event of a sample. Without ids every sample belongs to the first event; otherwise the
    /// id that the first event's layout finds decides, and an unknown id means the first event.
    pub open spec fn event_for(self, payload: Seq<u8>) -> Result<Option<int>, Seq<char>> {
        if self.events.len() == 0 {
            Ok(None)
        } else if self.by_identifier.dom().is_empty() {
            Ok(Some(0))
        } else {
            match sample_event_id_of(payload, self.events[0].layout) {
                Err(error) => Err(error),
                Ok(Some(id)) => if self.by_identifier.contains_key(id) {
                    Ok(Some(self.by_identifier[id] as int))
                } else {
                    Ok(Some(0))
                },
                Ok(None) => Ok(Some(0)),
            }
        }
    }
}

impl SampleLayouts {
    /// Finds the event of a sample.
    ///
    /// # Errors
    ///
    /// Returns an error when the sample ends in front of its event's id.
    pub fn event_index_for_payload(&self, payload: &[u8]) -> (result: Result<Option<usize>, String>)
        requires
            self@.wf(),
        ensures
            match result {
                Ok(Some(index)) => self@.event_for(payload@) == Ok::<Option<int>, Seq<char>>(
                    Some(index as int),
                ) && index < self.events@.len(),
                Ok(None) => self@.event_for(payload@) == Ok::<Option<int>, Seq<char>>(None),
                Err(error) => self@.event_for(payload@) == Err::<Option<int>, Seq<char>>(error@),
            },
    {
        if self.events.len() == 0 {
            return Ok(None);
        }
        if self.by_identifier.is_empty() {
            return Ok(Some(0));
        }
        assert(self@.events[0] == self.events@[0]@);
        match sample_event_id(payload, self.events[0].layout)? {
            Some(id) => match self.by_identifier.get(&id) {
                Some(index) => {
                    assert(self@.by_identifier.contains_key(id));
                    Ok(Some(*index))
                },
                None => Ok(Some(0)),
            },
            None => Ok(Some(0)),
        }
    }
}

// ---------------------------------------------------------------------------
// Laws
// ---------------------------------------------------------------------------

/// The section of a feature is the first one with its number.
pub proof fn first_section_of_a_feature_counts(
    sections: Seq<PerfFeatureSection>,
    feature: u16,
    from: int,
)
    requires
        0 <= from <= sections.len(),
    ensures
        match section_for(sections, feature, from) {
            Some(section) => exists|at: int|
                from <= at < sections.len() && #[trigger] sections[at] == section
                    && section.feature == feature && forall|i: int|
                    from <= i < at ==> (#[trigger] sections[i]).feature != feature,
            None => forall|i: int|
                from <= i < sections.len() ==> (#[trigger] sections[i]).feature != feature,
        },
    decreases sections.len() - from,
{
    if from < sections.len() {
        if sections[from].feature == feature {
            assert(sections[from] == section_for(sections, feature, from)->0);
        } else {
            first_section_of_a_feature_counts(sections, feature, from + 1);
            if let Some(section) = section_for(sections, feature, from + 1) {
                let at = choose|at: int|
                    from + 1 <= at < sections.len() && #[trigger] sections[at] == section
                        && section.feature == feature && forall|i: int|
                        from + 1 <= i < at ==> (#[trigger] sections[i]).feature != feature;
                assert(sections[at] == section);
            }
        }
    }
}

/// An event is named by the first description that holds one of its ids; where none does, by the
/// description at its own place.
pub proof fn events_are_named_by_their_ids(
    index: int,
    ids: Seq<u64>,
    entries: Seq<EventDescModel>,
    at: int,
    id: u64,
)
    requires
        0 <= index,
    ensures
        0 <= at < entries.len() && entries[at].ids.contains(id) && ids.contains(id) && (forall|
            i: int,
            other: u64,
        |
            #![trigger entries[i].ids.contains(other)]
            0 <= i < at ==> !(entries[i].ids.contains(other) && ids.contains(other)))
            ==> described_name(index, Some(ids), entries) == Some(entries[at].name),
        (forall|i: int, other: u64|
            #![trigger entries[i].ids.contains(other)]
            0 <= i < entries.len() ==> !(entries[i].ids.contains(other) && ids.contains(other)))
            ==> described_name(index, Some(ids), entries) == described_name(index, None, entries),
        described_name(index, None, entries) == if index < entries.len() {
            Some(entries[index].name)
        } else {
            None
        },
{
    if 0 <= at < entries.len() && entries[at].ids.contains(id) && ids.contains(id) && (forall|
        i: int,
        other: u64,
    |
        #![trigger entries[i].ids.contains(other)]
        0 <= i < at ==> !(entries[i].ids.contains(other) && ids.contains(other))) {
        first_shared_id_names(entries, ids, 0, at, id);
    }
    if forall|i: int, other: u64|
        #![trigger entries[i].ids.contains(other)]
        0 <= i < entries.len() ==> !(entries[i].ids.contains(other) && ids.contains(other)) {
        no_shared_id_names(entries, ids, 0);
    }
}

proof fn first_shared_id_names(
    entries: Seq<EventDescModel>,
    ids: Seq<u64>,
    from: int,
    at: int,
    id: u64,
)
    requires
        0 <= from <= at < entries.len(),
        entries[at].ids.contains(id),
        ids.contains(id),
        forall|i: int, other: u64|
            #![trigger entries[i].ids.contains(other)]
            0 <= i < at ==> !(entries[i].ids.contains(other) && ids.contains(other)),
    ensures
        name_by_ids(entries, ids, from) == Some(entries[at].name),
    decreases at - from,
{
    if from < at {
        if share_id(entries[from].ids, ids) {
            let i = choose|i: int|
                0 <= i < entries[from].ids.len() && ids.contains(
                    #[trigger] entries[from].ids[i],
                );
            assert(entries[from].ids.contains(entries[from].ids[i]));
        }
        first_shared_id_names(entries, ids, from + 1, at, id);
    } else {
        let i = choose|i: int| 0 <= i < entries[at].ids.len() && entries[at].ids[i] == id;
        assert(ids.contains(entries[at].ids[i]));
    }
}

proof fn no_shared_id_names(entries: Seq<EventDescModel>, ids: Seq<u64>, from: int)
    requires
        0 <= from <= entries.len(),
        forall|i: int, other: u64|
            #![trigger entries[i].ids.contains(other)]
            0 <= i < entries.len() ==> !(entries[i].ids.contains(other) && ids.contains(other)),
    ensures
        name_by_ids(entries, ids, from) is None,
    decreases entries.len() - from,
{
    if from < entries.len() {
        if share_id(entries[from].ids, ids) {
            let i = choose|i: int|
                0 <= i < entries[from].ids.len() && ids.contains(
                    #[trigger] entries[from].ids[i],
                );
            assert(entries[from].ids.contains(entries[from].ids[i]));
        }
        no_shared_id_names(entries, ids, from + 1);
    }
}

proof fn ids_are_entered(
    map: Map<u64, usize>,
    ids: Seq<u64>,
    event: usize,
    count: int,
    id: u64,
)
    requires
        0 <= count <= ids.len(),
    ensures
        ids.take(count).contains(id) ==> with_ids(map, ids, event, count).contains_key(id)
            && with_ids(map, ids, event, count)[id] == event,
        !ids.take(count).contains(id) ==> (with_ids(map, ids, event, count).contains_key(id)
            <==> map.contains_key(id)) && with_ids(map, ids, event, count)[id] == map[id],
    decreases count,
{
    if count > 0 {
        ids_are_entered(map, ids, event, count - 1, id);
        assert(ids.take(count) =~= ids.take(count - 1).push(ids[count - 1]));
        assert(ids.take(count)[count - 1] == ids[count - 1]);
        let all = ids.take(count);
        let fewer = ids.take(count - 1);
        if fewer.contains(id) {
            let i = choose|i: int| 0 <= i < fewer.len() && fewer[i] == id;
            assert(all[i] == id);
        }
        if all.contains(id) && id != ids[count - 1] {
            let i = choose|i: int| 0 <= i < all.len() && all[i] == id;
            assert(fewer[i] == id);
        }
    }
}

/// An id stands for the last event that has it, and for none where no event has it.
pub proof fn ids_stand_for_their_last_events(ids: Seq<Seq<u64>>, count: int, id: u64)
    requires
        0 <= count <= ids.len(),
        count <= usize::MAX,
    ensures
        match (ids_to_events(ids, count).contains_key(id)) {
            true => ids_to_events(ids, count)[id] < count && ids[ids_to_events(
                ids,
                count,
            )[id] as int].contains(id) && forall|i: int|
                ids_to_events(ids, count)[id] < i < count ==> !(#[trigger] ids[i]).contains(id),
            false => forall|i: int| 0 <= i < count ==> !(#[trigger] ids[i]).contains(id),
        },
    decreases count,
{
    if count > 0 {
        ids_stand_for_their_last_events(ids, count - 1, id);
        let own = ids[count - 1];
        ids_are_entered(
            ids_to_events(ids, count - 1),
            own,
            (count - 1) as usize,
            own.len() as int,
            id,
        );
        assert(own.take(own.len() as int) =~= own);
    }
}

/// A sample whose first word is the id of an event belongs to that event, where samples begin with
/// ids.
pub proof fn samples_belong_to_the_events_of_their_ids(
    attrs: Seq<PerfFileAttr>,
    ids: Seq<Seq<u64>>,
    entries: Seq<EventDescModel>,
    payload: Seq<u8>,
    event: int,
)
    requires
        attrs.len() == ids.len(),
        ids.len() <= usize::MAX,
        payload.len() >= 8,
        0 <= event < attrs.len(),
        attrs[0].sample_type & PERF_SAMPLE_IDENTIFIER != 0,
        ids[event].contains(le_u64(payload, 0)),
        forall|i: int|
            event < i < ids.len() ==> !(#[trigger] ids[i]).contains(le_u64(payload, 0)),
    ensures
        layouts_from(attrs, ids, entries).event_for(payload) == Ok::<Option<int>, Seq<char>>(
            Some(event),
        ),
{
    let id = le_u64(payload, 0);
    let known = ids_to_events(ids, ids.len() as int);
    ids_stand_for_their_last_events(ids, ids.len() as int, id);
    assert(known.contains_key(id));
    assert(known.dom().contains(id));
    let found = known[id] as int;
    assert(ids[found].contains(id));
    if found > event {
        assert(!ids[found].contains(id));
    }
    if found < event {
        assert(!ids[event].contains(id));
    }
}

/// The column of event names is as wide as the longest of them.
pub proof fn longest_name_sets_the_width(names: Seq<Seq<char>>, count: int)
    requires
        0 <= count <= names.len(),
    ensures
        forall|i: int|
            0 <= i < count ==> encode_utf8(#[trigger] names[i]).len() <= widest(names, count),
        count == 0 ==> widest(names, count) == 0,
        count > 0 ==> exists|i: int|
            0 <= i < count && encode_utf8(#[trigger] names[i]).len() == widest(names, count),
    decreases count,
{
    if count > 0 {
        longest_name_sets_the_width(names, count - 1);
        let last = encode_utf8(names[count - 1]).len();
        if last <= widest(names, count - 1) && count > 1 {
            let i = choose|i: int|
                0 <= i < count - 1 && encode_utf8(#[trigger] names[i]).len() == widest(
                    names,
                    count - 1,
                );
            assert(encode_utf8(names[i]).len() == widest(names, count));
        } else {
            assert(encode_utf8(names[count - 1]).len() == widest(names, count));
        }
    }
}

/// The ids of events are read just where those of each event can be read, each event's in its own
/// place.
pub proof fn ids_of_all_events_are_read(bytes: Seq<u8>, attrs: Seq<PerfFileAttr>, count: int)
    requires
        0 <= count <= attrs.len(),
    ensures
        all_ids_of(bytes, attrs, count) is Ok <==> forall|i: int|
            0 <= i < count ==> (#[trigger] attr_ids_of(bytes, attrs[i])) is Ok,
        all_ids_of(bytes, attrs, count) matches Ok(ids) ==> ids.len() == count && forall|i: int|
            0 <= i < count ==> (#[trigger] attr_ids_of(bytes, attrs[i])) == Ok::<
                Seq<u64>,
                Seq<char>,
            >(ids[i]),
    decreases count,
{
    if count > 0 {
        ids_of_all_events_are_read(bytes, attrs, count - 1);
        assert(attr_ids_of(bytes, attrs[count - 1]) is Ok || attr_ids_of(
            bytes,
            attrs[count - 1],
        ) is Err);
    }
}

/// The description of an event is read as it was written: behind the attribute the number of its
/// ids, the length of its name, the name up to its zero byte, and the ids. The others follow.
pub proof fn written_descriptions_are_read(
    payload: Seq<u8>,
    offset: int,
    attr_size: int,
    name: Seq<u8>,
    fill: Seq<u8>,
    ids: Seq<u64>,
    count: nat,
)
    requires
        0 <= offset,
        0 <= attr_size,
        ids.len() <= u32::MAX,
        name.len() + 1 + fill.len() <= u32::MAX,
        forall|i: int| 0 <= i < name.len() ==> #[trigger] name[i] != 0,
        ({
            let at = offset + attr_size;
            let name_len = name.len() + 1 + fill.len();
            let ids_at = at + 8 + name_len;
            &&& ids_at + 8 * ids.len() <= payload.len()
            &&& payload.subrange(at, at + 4) == four_bytes(ids.len() as u32)
            &&& payload.subrange(at + 4, at + 8) == four_bytes(name_len as u32)
            &&& payload.subrange(at + 8, ids_at) == name + seq![0u8] + fill
            &&& forall|i: int|
                0 <= i < ids.len() ==> payload.subrange(ids_at + 8 * i, ids_at + 8 * i + 8)
                    == eight_bytes(#[trigger] ids[i])
        }),
    ensures
        ({
            let end = offset + attr_size + 8 + name.len() + 1 + fill.len() + 8 * ids.len();
            match event_descs_from(payload, end as int, attr_size, count) {
                Some(rest) => event_descs_from(payload, offset, attr_size, count + 1) == Some(
                    seq![EventDescModel { name: utf8_lossy(name), ids }] + rest,
                ),
                None => event_descs_from(payload, offset, attr_size, count + 1) is None,
            }
        }),
{
    let at = offset + attr_size;
    let name_len = name.len() + 1 + fill.len();
    let ids_at = at + 8 + name_len;
    written_numbers_are_read(payload, at, ids.len() as u32, 0);
    written_numbers_are_read(payload, at + 4, name_len as u32, 0);
    texts_end_at_zero(name, fill);
    let read = words_at(payload, ids_at, ids.len() as int);
    assert forall|i: int| 0 <= i < ids.len() implies #[trigger] read[i] == ids[i] by {
        written_numbers_are_read(payload, ids_at + 8 * i, 0, ids[i]);
    }
    assert(read =~= ids);
}

} // verus!
