//! Object files: what their headers, sections and call-frame tables say, read through the
//! `object` and `gimli` crates, and what follows for unwinding.

use gimli::{
    BaseAddresses, CieOrFde, DebugFrame, EhFrame, LittleEndian, SectionBaseAddresses, UnwindSection,
};
use object::read::{Object, ObjectSection, ObjectSegment};
use vstd::prelude::*;
use vstd::slice::{slice_subrange, slice_to_vec};
use vstd::string::StringSliceAdditionalSpecFns;

use crate::sorting::{same_items, sort, sorted, Ranked};
use crate::text::{size_from_u64, views};

verus! {

// ---------------------------------------------------------------------------
// What an object file states
// ---------------------------------------------------------------------------

/// A segment as the object's headers state it.
#[derive(Clone, Debug, Eq, PartialEq)]
pub struct SegmentInfo {
    pub name: Option<Vec<u8>>,
    pub address: u64,
    pub size: u64,
    pub file_offset: u64,
    pub file_size: u64,
}

/// The contents of a [`SegmentInfo`].
#[verifier::ext_equal]
pub struct SegmentModel {
    pub name: Option<Seq<u8>>,
    pub address: u64,
    pub size: u64,
    pub file_offset: u64,
    pub file_size: u64,
}

impl View for SegmentInfo {
    type V = SegmentModel;

    open spec fn view(&self) -> SegmentModel {
        SegmentModel {
            name: match self.name {
                Some(name) => Some(name@),
                None => None,
            },
            address: self.address,
            size: self.size,
            file_offset: self.file_offset,
            file_size: self.file_size,
        }
    }
}

/// A section as the object's headers state it.
#[derive(Clone, Copy, Debug, Eq, PartialEq)]
pub struct SectionInfo {
    pub address: u64,
    pub size: u64,
    pub file_range: Option<(u64, u64)>,
}

/// The segments that `object::File::parse` finds in a file, or the message of its error.
pub uninterp spec fn object_segments_of(bytes: Seq<u8>) -> Result<Seq<SegmentModel>, Seq<char>>;

/// Calls `object::File::parse` and lists `Object::segments`: name, address, size and place in
/// the file of each. What the headers mean is not spelled out, only that the answer is a
/// function of the bytes.
#[verifier::external_body]
pub(crate) fn object_segments(bytes: &[u8]) -> (result: Result<Vec<SegmentInfo>, String>)
    ensures
        (match result {
            Ok(segments) => object_segments_of(bytes@) == Ok::<Seq<SegmentModel>, Seq<char>>(views(segments@)),
            Err(error) => object_segments_of(bytes@) == Err::<Seq<SegmentModel>, Seq<char>>(error@),
        }),
{
    let file = object::File::parse(bytes).map_err(|error| error.to_string())?;
    let describe = |segment: object::read::Segment<'_, '_>| SegmentInfo {
        name: segment.name_bytes().ok().flatten().map(|name| name.to_vec()),
        address: segment.address(),
        size: segment.size(),
        file_offset: segment.file_range().0,
        file_size: segment.file_range().1,
    };
    Ok(file.segments().map(describe).collect())
}

/// The section that `Object::section_by_name_bytes` finds in a file.
pub uninterp spec fn object_section_of(bytes: Seq<u8>, name: Seq<char>) -> Option<SectionInfo>;

/// Calls `Object::section_by_name_bytes`: address, size and place in the file of the section, or
/// nothing where the file does not parse or has no such section.
#[verifier::external_body]
pub(crate) fn object_section(bytes: &[u8], name: &str) -> (section: Option<SectionInfo>)
    ensures
        section == object_section_of(bytes@, name@),
{
    let file = object::File::parse(bytes).ok()?;
    let section = file.section_by_name_bytes(name.as_bytes())?;
    Some(SectionInfo {
        address: section.address(),
        size: section.size(),
        file_range: section.file_range(),
    })
}

/// The contents that `ObjectSection::data` gives for a section.
pub uninterp spec fn object_section_data_of(bytes: Seq<u8>, name: Seq<char>) -> Option<Seq<u8>>;

/// Calls `ObjectSection::data` on the section that `Object::section_by_name_bytes` finds.
#[verifier::external_body]
pub(crate) fn object_section_data(bytes: &[u8], name: &str) -> (data: Option<Vec<u8>>)
    ensures
        (match data {
            Some(data) => object_section_data_of(bytes@, name@) == Some(data@),
            None => object_section_data_of(bytes@, name@) is None,
        }),
{
    let file = object::File::parse(bytes).ok()?;
    let section = file.section_by_name_bytes(name.as_bytes())?;
    section.data().ok().map(|data| data.to_vec())
}

/// The contents that `ObjectSegment::data` gives for the segment at an index.
pub uninterp spec fn object_segment_data_of(bytes: Seq<u8>, index: usize) -> Option<Seq<u8>>;

/// Calls `ObjectSegment::data` on the segment at an index of `Object::segments`; gives nothing
/// where the file does not parse or has no such segment.
#[verifier::external_body]
pub(crate) fn object_segment_data(bytes: &[u8], index: usize) -> (data: Option<Vec<u8>>)
    ensures
        (match data {
            Some(data) => object_segment_data_of(bytes@, index) == Some(data@),
            None => object_segment_data_of(bytes@, index) is None,
        }),
{
    let file = object::File::parse(bytes).ok()?;
    let segment = file.segments().nth(index)?;
    segment.data().ok().map(|data| data.to_vec())
}

/// What `Object::relative_address_base` gives for a file.
pub uninterp spec fn object_address_base_of(bytes: Seq<u8>) -> Option<u64>;

/// Calls `Object::relative_address_base`, or gives nothing where the file does not parse.
#[verifier::external_body]
pub(crate) fn object_address_base(bytes: &[u8]) -> (base: Option<u64>)
    ensures
        base == object_address_base_of(bytes@),
{
    let file = object::File::parse(bytes).ok()?;
    Some(file.relative_address_base())
}

/// Where call-frame pointers of an object are relative to.
#[derive(Clone, Copy, Debug, Eq, PartialEq, Structural)]
pub struct CfiBases {
    pub eh_frame_hdr: Option<u64>,
    pub eh_frame: Option<u64>,
    pub text: Option<u64>,
    pub got: Option<u64>,
}

/// An entry of a call-frame section: what others have in common, the addresses that a frame
/// description is about with its place in the section, or a frame description that cannot be read.
#[derive(Clone, Copy, Debug, Eq, PartialEq, Structural)]
pub enum CfiItem {
    Common,
    Described { start: u64, end: u64, offset: usize },
    Unread,
}

/// The entries that `gimli::EhFrame` finds.
pub uninterp spec fn eh_frame_items_of(data: Seq<u8>, bases: CfiBases) -> Seq<CfiItem>;

/// Walks `gimli::EhFrame::entries`, for eight-byte addresses, up to its end or its first error. Of
/// each frame description that `parse` can read it gives the address where it begins, the address
/// behind it, and where the description stands. What the
/// bytes mean is not spelled out, only that the entries are a function of them.
#[verifier::external_body]
pub(crate) fn eh_frame_items(data: &[u8], bases: CfiBases) -> (items: Vec<CfiItem>)
    ensures
        items@ == eh_frame_items_of(data@, bases),
{
    let frame = SectionBaseAddresses { section: bases.eh_frame, text: bases.text, data: bases.got };
    let addresses = BaseAddresses { eh_frame: frame, ..Default::default() };
    let mut section = EhFrame::new(data, LittleEndian);
    section.set_address_size(8);
    let mut entries = section.entries(&addresses);
    std::iter::from_fn(|| entries.next().ok().flatten()).map(|entry| match entry {
        CieOrFde::Cie(_) => CfiItem::Common,
        CieOrFde::Fde(partial) => match partial.parse(EhFrame::cie_from_offset) {
            Ok(fde) => CfiItem::Described { start: fde.initial_address(), end: fde.end_address(), offset: fde.offset() },
            Err(_) => CfiItem::Unread,
        },
    }).collect()
}

/// The entries that `gimli::DebugFrame` finds.
pub uninterp spec fn debug_frame_items_of(data: Seq<u8>, bases: CfiBases) -> Seq<CfiItem>;

/// Walks `gimli::DebugFrame::entries`, for eight-byte addresses, up to its end or its first error.
/// Of each frame description that `parse` can read it gives the address where it begins, the
/// address behind it, and where the description stands. What the
/// bytes mean is not spelled out, only that the entries are a function of them.
#[verifier::external_body]
pub(crate) fn debug_frame_items(data: &[u8], bases: CfiBases) -> (items: Vec<CfiItem>)
    ensures
        items@ == debug_frame_items_of(data@, bases),
{
    let frame = SectionBaseAddresses { section: bases.eh_frame, text: bases.text, data: bases.got };
    let addresses = BaseAddresses { eh_frame: frame, ..Default::default() };
    let mut section = DebugFrame::new(data, LittleEndian);
    section.set_address_size(8);
    let mut entries = section.entries(&addresses);
    std::iter::from_fn(|| entries.next().ok().flatten()).map(|entry| match entry {
        CieOrFde::Cie(_) => CfiItem::Common,
        CieOrFde::Fde(partial) => match partial.parse(DebugFrame::cie_from_offset) {
            Ok(fde) => CfiItem::Described { start: fde.initial_address(), end: fde.end_address(), offset: fde.offset() },
            Err(_) => CfiItem::Unread,
        },
    }).collect()
}

/// The addresses that frame descriptions among the first `count` entries are about.
pub open spec fn described(items: Seq<CfiItem>, count: int) -> Seq<(u64, u64)>
    decreases count,
{
    if count <= 0 {
        Seq::empty()
    } else {
        match items[count - 1] {
            CfiItem::Described { start, end, .. } => described(items, count - 1).push((start, end)),
            _ => described(items, count - 1),
        }
    }
}

fn push_described(entries: &mut Vec<(u64, u64)>, items: &Vec<CfiItem>)
    ensures
        final(entries)@ == old(entries)@ + described(items@, items@.len() as int),
{
    let ghost start = entries@;
    let mut i: usize = 0;
    assert(start + Seq::<(u64, u64)>::empty() =~= start);
    while i < items.len()
        invariant
            i <= items@.len(),
            entries@ == start + described(items@, i as int),
        decreases items@.len() - i,
    {
        if let CfiItem::Described { start, end, .. } = items[i] {
            entries.push((start, end));
        }
        i += 1;
        assert(entries@ =~= start + described(items@, i as int));
    }
}

// ---------------------------------------------------------------------------
// Ranges
// ---------------------------------------------------------------------------

/// Addresses from `start` up to but without `end`.
#[derive(Clone, Copy, Debug, Eq, PartialEq, Structural)]
pub struct AddressRange {
    pub start: u64,
    pub end: u64,
}

impl AddressRange {
    /// Whether an address lies in the range.
    pub open spec fn holds(self, address: u64) -> bool {
        self.start <= address < self.end
    }

    /// Whether two ranges have an address in common, or one lies strictly inside the other.
    pub open spec fn overlaps_with(self, other: AddressRange) -> bool {
        self.start < other.end && other.start < self.end
    }

    /// Tells whether an address lies in the range.
    pub fn contains(&self, address: u64) -> (found: bool)
        ensures
            found == self.holds(address),
    {
        self.start <= address && address < self.end
    }
}

/// Tells whether two ranges overlap.
pub fn ranges_overlap(left: &AddressRange, right: &AddressRange) -> (found: bool)
    ensures
        found == left.overlaps_with(*right),
{
    left.start < right.end && right.start < left.end
}

/// Whether some range holds an address.
pub open spec fn covered(ranges: Seq<AddressRange>, address: u64) -> bool {
    exists|i: int| 0 <= i < ranges.len() && (#[trigger] ranges[i]).holds(address)
}

/// Tells whether some range holds an address.
pub fn some_range_contains(ranges: &Vec<AddressRange>, address: u64) -> (found: bool)
    ensures
        found == covered(ranges@, address),
{
    let mut i: usize = 0;
    while i < ranges.len()
        invariant
            i <= ranges@.len(),
            forall|j: int| 0 <= j < i ==> !(#[trigger] ranges@[j]).holds(address),
        decreases ranges@.len() - i,
    {
        if ranges[i].contains(address) {
            assert(ranges@[i as int].holds(address));
            return true;
        }
        i += 1;
    }
    false
}

impl Ranked for AddressRange {
    /// Ranges go by their starts, then by their ends.
    open spec fn before(&self, other: &Self) -> bool {
        self.start < other.start || (self.start == other.start && self.end <= other.end)
    }

    fn in_order(&self, other: &Self) -> (ordered: bool) {
        self.start < other.start || (self.start == other.start && self.end <= other.end)
    }

    proof fn order_is_total(left: &Self, right: &Self) {
    }

    proof fn order_is_transitive(a: &Self, b: &Self, c: &Self) {
    }
}

/// Whether ranges are not empty, ascend, and leave at least one address between each other.
pub open spec fn normal(ranges: Seq<AddressRange>) -> bool {
    &&& forall|i: int| 0 <= i < ranges.len() ==> (#[trigger] ranges[i]).start < ranges[i].end
    &&& forall|i: int, j: int|
        #![trigger ranges[i], ranges[j]]
        0 <= i < j < ranges.len() ==> ranges[i].end < ranges[j].start
}

/// Joins ranges that touch or overlap; the addresses they hold stay the same.
pub fn normalize_ranges(ranges: Vec<AddressRange>) -> (joined: Vec<AddressRange>)
    requires
        forall|i: int| 0 <= i < ranges@.len() ==> (#[trigger] ranges@[i]).start < ranges@[i].end,
    ensures
        normal(joined@),
        forall|address: u64| covered(joined@, address) <==> #[trigger] covered(ranges@, address),
{
    let ghost unsorted = ranges@;
    let ordered = sort(ranges);
    proof {
        same_items(ordered@, unsorted);
        assert forall|i: int| 0 <= i < ordered@.len() implies (#[trigger] ordered@[i]).start
            < ordered@[i].end by {
            assert(ordered@.contains(ordered@[i]));
            let j = choose|j: int| 0 <= j < unsorted.len() && unsorted[j] == ordered@[i];
            assert(unsorted[j].start < unsorted[j].end);
        }
    }
    let mut joined: Vec<AddressRange> = Vec::new();
    let mut i: usize = 0;
    while i < ordered.len()
        invariant
            i <= ordered@.len(),
            sorted(ordered@),
            forall|j: int|
                0 <= j < ordered@.len() ==> (#[trigger] ordered@[j]).start < ordered@[j].end,
            normal(joined@),
            i > 0 ==> joined@.len() > 0,
            joined@.len() > 0 ==> i > 0 && joined@.last().start <= ordered@[i - 1].start,
            forall|address: u64|
                covered(joined@, address) <==> #[trigger] covered(
                    ordered@.subrange(0, i as int),
                    address,
                ),
        decreases ordered@.len() - i,
    {
        let range = ordered[i];
        let ghost before = joined@;
        let ghost taken = ordered@.subrange(0, i as int);
        let ghost more = ordered@.subrange(0, i + 1);
        proof {
            assert(more =~= taken.push(range));
            if i > 0 {
                assert(ordered@[i - 1].before(&ordered@[i as int]));
            }
        }
        let count: usize = joined.len();
        if count > 0 && joined[count - 1].end >= range.start {
            let last = joined[count - 1];
            let end: u64 = if last.end > range.end {
                last.end
            } else {
                range.end
            };
            joined[count - 1] = AddressRange { start: last.start, end };
            proof {
                assert forall|address: u64|
                    covered(joined@, address) <==> #[trigger] covered(more, address) by {
                    covered_after_push(taken, range, address);
                    if covered(joined@, address) {
                        let k = choose|k: int|
                            0 <= k < joined@.len() && (#[trigger] joined@[k]).holds(address);
                        if k < count - 1 {
                            assert(before[k].holds(address));
                        } else if !range.holds(address) {
                            assert(before[count - 1].holds(address));
                        }
                    }
                    if covered(before, address) {
                        let k = choose|k: int|
                            0 <= k < before.len() && (#[trigger] before[k]).holds(address);
                        assert(joined@[k].holds(address));
                    }
                    if range.holds(address) {
                        assert(joined@[count - 1].holds(address));
                    }
                }
            }
        } else {
            joined.push(range);
            proof {
                assert forall|address: u64|
                    covered(joined@, address) <==> #[trigger] covered(more, address) by {
                    covered_after_push(taken, range, address);
                    covered_after_push(before, range, address);
                }
            }
        }
        i += 1;
    }
    proof {
        assert(ordered@.subrange(0, i as int) =~= ordered@);
        assert forall|address: u64| covered(ordered@, address) <==> #[trigger] covered(
            unsorted,
            address,
        ) by {
            if covered(ordered@, address) {
                let k = choose|k: int|
                    0 <= k < ordered@.len() && (#[trigger] ordered@[k]).holds(address);
                assert(ordered@.contains(ordered@[k]));
                let j = choose|j: int| 0 <= j < unsorted.len() && unsorted[j] == ordered@[k];
                assert(unsorted[j].holds(address));
            }
            if covered(unsorted, address) {
                let k = choose|k: int|
                    0 <= k < unsorted.len() && (#[trigger] unsorted[k]).holds(address);
                assert(unsorted.contains(unsorted[k]));
                assert(ordered@.contains(unsorted[k]));
                let j = choose|j: int| 0 <= j < ordered@.len() && ordered@[j] == unsorted[k];
                assert(ordered@[j].holds(address));
            }
        }
    }
    joined
}

proof fn covered_after_push(ranges: Seq<AddressRange>, range: AddressRange, address: u64)
    ensures
        covered(ranges.push(range), address) <==> covered(ranges, address) || range.holds(address),
{
    let all = ranges.push(range);
    if covered(all, address) {
        let i = choose|i: int| 0 <= i < all.len() && (#[trigger] all[i]).holds(address);
        if i < ranges.len() {
            assert(ranges[i].holds(address));
        }
    }
    if covered(ranges, address) {
        let i = choose|i: int| 0 <= i < ranges.len() && (#[trigger] ranges[i]).holds(address);
        assert(all[i].holds(address));
    }
    if range.holds(address) {
        assert(all[ranges.len() as int].holds(address));
    }
}

/// Sum of addresses that stays at the largest one.
pub open spec fn address_sum(left: u64, right: u64) -> u64 {
    if left + right > u64::MAX {
        u64::MAX
    } else {
        (left + right) as u64
    }
}

/// The addresses from the lowest to the highest of the first `count` segments that are not empty.
pub open spec fn load_span(segments: Seq<SegmentModel>, count: int) -> Option<AddressRange>
    decreases count,
{
    if count <= 0 {
        None
    } else {
        let segment = segments[count - 1];
        let before = load_span(segments, count - 1);
        if segment.size == 0 {
            before
        } else {
            let end = address_sum(segment.address, segment.size);
            match before {
                None => Some(AddressRange { start: segment.address, end }),
                Some(span) => Some(
                    AddressRange {
                        start: if segment.address < span.start {
                            segment.address
                        } else {
                            span.start
                        },
                        end: if end > span.end {
                            end
                        } else {
                            span.end
                        },
                    },
                ),
            }
        }
    }
}

/// The addresses that an object's segments span.
pub fn object_load_range(segments: &Vec<SegmentInfo>) -> (range: Option<AddressRange>)
    ensures
        range == load_span(views(segments@), segments@.len() as int),
{
    let mut span: Option<AddressRange> = None;
    let mut i: usize = 0;
    while i < segments.len()
        invariant
            i <= segments@.len(),
            span == load_span(views(segments@), i as int),
        decreases segments@.len() - i,
    {
        let segment = &segments[i];
        assert(views(segments@)[i as int] == segments@[i as int]@);
        if segment.size != 0 {
            let end: u64 = segment.address.saturating_add(segment.size);
            span = match span {
                None => Some(AddressRange { start: segment.address, end }),
                Some(range) => Some(
                    AddressRange {
                        start: if segment.address < range.start {
                            segment.address
                        } else {
                            range.start
                        },
                        end: if end > range.end {
                            end
                        } else {
                            range.end
                        },
                    },
                ),
            };
        }
        i += 1;
    }
    span
}

// ---------------------------------------------------------------------------
// Sections
// ---------------------------------------------------------------------------

/// The bytes at a place in a file, if the file reaches so far.
pub open spec fn file_part(bytes: Seq<u8>, place: (u64, u64)) -> Option<Seq<u8>> {
    if place.0 <= usize::MAX && place.1 <= usize::MAX && place.0 + place.1 <= bytes.len() {
        Some(bytes.subrange(place.0 as int, place.0 + place.1))
    } else {
        None
    }
}

/// Finds the bytes at a place in a file, if the file reaches so far.
pub fn map_file_range(bytes: &[u8], place: (u64, u64)) -> (part: Option<&[u8]>)
    ensures
        match part {
            Some(part) => file_part(bytes@, place) == Some(part@),
            None => file_part(bytes@, place) is None,
        },
{
    let start: usize = match size_from_u64(place.0) {
        Some(start) => start,
        None => return None,
    };
    let len: usize = match size_from_u64(place.1) {
        Some(len) => len,
        None => return None,
    };
    if start > bytes.len() || len > bytes.len() - start {
        return None;
    }
    Some(slice_subrange(bytes, start, start + len))
}

/// The contents of a section: its bytes in the file, or else what the reader makes of it.
pub open spec fn section_contents(bytes: Seq<u8>, name: Seq<char>) -> Option<Seq<u8>> {
    match object_section_of(bytes, name) {
        None => None,
        Some(section) => match section.file_range {
            Some(place) => match file_part(bytes, place) {
                Some(part) => Some(part),
                None => object_section_data_of(bytes, name),
            },
            None => object_section_data_of(bytes, name),
        },
    }
}

fn section_data(bytes: &[u8], name: &str) -> (data: Option<Vec<u8>>)
    ensures
        match data {
            Some(data) => section_contents(bytes@, name@) == Some(data@),
            None => section_contents(bytes@, name@) is None,
        },
{
    let section = match object_section(bytes, name) {
        Some(section) => section,
        None => return None,
    };
    if let Some(place) = section.file_range {
        if let Some(part) = map_file_range(bytes, place) {
            return Some(slice_to_vec(part));
        }
    }
    object_section_data(bytes, name)
}

/// The contents of the first of two sections that has some.
pub open spec fn either_contents(bytes: Seq<u8>, first: Seq<char>, second: Seq<char>) -> Option<
    Seq<u8>,
> {
    match section_contents(bytes, first) {
        Some(data) => Some(data),
        None => section_contents(bytes, second),
    }
}

fn either_section_data(bytes: &[u8], first: &str, second: &str) -> (data: Option<Vec<u8>>)
    ensures
        match data {
            Some(data) => either_contents(bytes@, first@, second@) == Some(data@),
            None => either_contents(bytes@, first@, second@) is None,
        },
{
    match section_data(bytes, first) {
        Some(data) => Some(data),
        None => section_data(bytes, second),
    }
}

/// The addresses of a section.
pub open spec fn section_range(bytes: Seq<u8>, name: Seq<char>) -> Option<AddressRange> {
    match object_section_of(bytes, name) {
        Some(section) => Some(
            AddressRange {
                start: section.address,
                end: address_sum(section.address, section.size),
            },
        ),
        None => None,
    }
}

fn section_svma_range(bytes: &[u8], name: &str) -> (range: Option<AddressRange>)
    ensures
        range == section_range(bytes@, name@),
{
    match object_section(bytes, name) {
        Some(section) => Some(
            AddressRange {
                start: section.address,
                end: section.address.saturating_add(section.size),
            },
        ),
        None => None,
    }
}

/// The addresses of the first of two sections that exists.
pub open spec fn either_range(bytes: Seq<u8>, first: Seq<char>, second: Seq<char>) -> Option<
    AddressRange,
> {
    match section_range(bytes, first) {
        Some(range) => Some(range),
        None => section_range(bytes, second),
    }
}

fn either_svma_range(bytes: &[u8], first: &str, second: &str) -> (range: Option<AddressRange>)
    ensures
        range == either_range(bytes@, first@, second@),
{
    match section_svma_range(bytes, first) {
        Some(range) => Some(range),
        None => section_svma_range(bytes, second),
    }
}

/// Where an optional range begins.
pub open spec fn range_start(range: Option<AddressRange>) -> Option<u64> {
    match range {
        Some(range) => Some(range.start),
        None => None,
    }
}

fn start_of(range: Option<AddressRange>) -> (start: Option<u64>)
    ensures
        start == range_start(range),
{
    match range {
        Some(range) => Some(range.start),
        None => None,
    }
}

/// Where an object's call-frame pointers are relative to.
pub open spec fn cfi_bases_of(bytes: Seq<u8>) -> CfiBases {
    CfiBases {
        eh_frame_hdr: range_start(section_range(bytes, ".eh_frame_hdr"@)),
        eh_frame: range_start(section_range(bytes, ".eh_frame"@)),
        text: range_start(either_range(bytes, "__text"@, ".text"@)),
        got: range_start(either_range(bytes, "__got"@, ".got"@)),
    }
}

/// The index of the first segment from `from` on that is named `__TEXT`; the number of segments
/// where there is none.
pub open spec fn text_segment_from(segments: Seq<SegmentModel>, from: int) -> int
    decreases segments.len() - from,
{
    if from >= segments.len() {
        segments.len() as int
    } else if segments[from].name == Some("__TEXT".spec_bytes()) {
        from
    } else {
        text_segment_from(segments, from + 1)
    }
}

fn find_text_segment(segments: &Vec<SegmentInfo>) -> (index: usize)
    ensures
        index == text_segment_from(views(segments@), 0),
        index <= segments@.len(),
{
    let mut index: usize = 0;
    while index < segments.len()
        invariant
            index <= segments@.len(),
            text_segment_from(views(segments@), 0) == text_segment_from(
                views(segments@),
                index as int,
            ),
        decreases segments@.len() - index,
    {
        assert(views(segments@)[index as int] == segments@[index as int]@);
        if let Some(name) = &segments[index].name {
            if crate::sorting::same_bytes(name.as_slice(), "__TEXT".as_bytes()) {
                return index;
            }
        }
        index += 1;
    }
    index
}

/// Sections that an unwinder is given for a module.
#[derive(Clone, Debug, Eq, PartialEq)]
pub struct ModuleSections {
    pub base_svma: u64,
    pub text_svma: Option<AddressRange>,
    pub text: Option<Vec<u8>>,
    pub stubs_svma: Option<AddressRange>,
    pub stub_helper_svma: Option<AddressRange>,
    pub got_svma: Option<AddressRange>,
    pub unwind_info: Option<Vec<u8>>,
    pub eh_frame_svma: Option<AddressRange>,
    pub eh_frame: Option<Vec<u8>>,
    pub eh_frame_hdr_svma: Option<AddressRange>,
    pub eh_frame_hdr: Option<Vec<u8>>,
    pub debug_frame: Option<Vec<u8>>,
    pub text_segment_svma: Option<AddressRange>,
    pub text_segment: Option<Vec<u8>>,
}

/// The contents of a [`ModuleSections`].
#[verifier::ext_equal]
pub struct SectionsModel {
    pub base_svma: u64,
    pub text_svma: Option<AddressRange>,
    pub text: Option<Seq<u8>>,
    pub stubs_svma: Option<AddressRange>,
    pub stub_helper_svma: Option<AddressRange>,
    pub got_svma: Option<AddressRange>,
    pub unwind_info: Option<Seq<u8>>,
    pub eh_frame_svma: Option<AddressRange>,
    pub eh_frame: Option<Seq<u8>>,
    pub eh_frame_hdr_svma: Option<AddressRange>,
    pub eh_frame_hdr: Option<Seq<u8>>,
    pub debug_frame: Option<Seq<u8>>,
    pub text_segment_svma: Option<AddressRange>,
    pub text_segment: Option<Seq<u8>>,
}

/// The bytes of optional contents.
pub open spec fn data_view(data: Option<Vec<u8>>) -> Option<Seq<u8>> {
    match data {
        Some(data) => Some(data@),
        None => None,
    }
}

impl View for ModuleSections {
    type V = SectionsModel;

    open spec fn view(&self) -> SectionsModel {
        SectionsModel {
            base_svma: self.base_svma,
            text_svma: self.text_svma,
            text: data_view(self.text),
            stubs_svma: self.stubs_svma,
            stub_helper_svma: self.stub_helper_svma,
            got_svma: self.got_svma,
            unwind_info: data_view(self.unwind_info),
            eh_frame_svma: self.eh_frame_svma,
            eh_frame: data_view(self.eh_frame),
            eh_frame_hdr_svma: self.eh_frame_hdr_svma,
            eh_frame_hdr: data_view(self.eh_frame_hdr),
            debug_frame: data_view(self.debug_frame),
            text_segment_svma: self.text_segment_svma,
            text_segment: data_view(self.text_segment),
        }
    }
}

/// The `__TEXT` segment of an object, if it has one.
pub open spec fn text_segment_of(segments: Seq<SegmentModel>) -> Option<SegmentModel> {
    let index = text_segment_from(segments, 0);
    if index < segments.len() {
        Some(segments[index])
    } else {
        None
    }
}

/// The sections that an unwinder is given for an object with these segments.
pub open spec fn module_sections_of(bytes: Seq<u8>, segments: Seq<SegmentModel>) -> SectionsModel {
    let text_segment = text_segment_of(segments);
    SectionsModel {
        base_svma: match text_segment {
            Some(segment) => segment.address,
            None => match object_address_base_of(bytes) {
                Some(base) => base,
                None => 0,
            },
        },
        text_svma: either_range(bytes, "__text"@, ".text"@),
        text: either_contents(bytes, "__text"@, ".text"@),
        stubs_svma: section_range(bytes, "__stubs"@),
        stub_helper_svma: section_range(bytes, "__stub_helper"@),
        got_svma: either_range(bytes, "__got"@, ".got"@),
        unwind_info: section_contents(bytes, "__unwind_info"@),
        eh_frame_svma: either_range(bytes, "__eh_frame"@, ".eh_frame"@),
        eh_frame: either_contents(bytes, "__eh_frame"@, ".eh_frame"@),
        eh_frame_hdr_svma: either_range(bytes, "__eh_frame_hdr"@, ".eh_frame_hdr"@),
        eh_frame_hdr: either_contents(bytes, "__eh_frame_hdr"@, ".eh_frame_hdr"@),
        debug_frame: section_contents(bytes, ".debug_frame"@),
        text_segment_svma: match text_segment {
            Some(segment) => Some(
                AddressRange {
                    start: segment.address,
                    end: address_sum(segment.address, segment.size),
                },
            ),
            None => None,
        },
        text_segment: match text_segment {
            Some(segment) => match file_part(bytes, (segment.file_offset, segment.file_size)) {
                Some(part) => Some(part),
                None => object_segment_data_of(bytes, text_segment_from(segments, 0) as usize),
            },
            None => None,
        },
    }
}

/// Collects the sections that an unwinder is given for an object.
pub fn explicit_module_section_info(
    bytes: &[u8],
    segments: &Vec<SegmentInfo>,
) -> (sections: ModuleSections)
    ensures
        sections@ == module_sections_of(bytes@, views(segments@)),
{
    let index: usize = find_text_segment(segments);
    let mut base_svma: u64 = match object_address_base(bytes) {
        Some(base) => base,
        None => 0,
    };
    let mut text_segment_svma: Option<AddressRange> = None;
    let mut text_segment: Option<Vec<u8>> = None;
    if index < segments.len() {
        let segment = &segments[index];
        assert(views(segments@)[index as int] == segments@[index as int]@);
        base_svma = segment.address;
        text_segment_svma = Some(
            AddressRange {
                start: segment.address,
                end: segment.address.saturating_add(segment.size),
            },
        );
        text_segment = match map_file_range(bytes, (segment.file_offset, segment.file_size)) {
            Some(part) => Some(slice_to_vec(part)),
            None => object_segment_data(bytes, index),
        };
    }
    let sections = ModuleSections {
        base_svma,
        text_svma: either_svma_range(bytes, "__text", ".text"),
        text: either_section_data(bytes, "__text", ".text"),
        stubs_svma: section_svma_range(bytes, "__stubs"),
        stub_helper_svma: section_svma_range(bytes, "__stub_helper"),
        got_svma: either_svma_range(bytes, "__got", ".got"),
        unwind_info: section_data(bytes, "__unwind_info"),
        eh_frame_svma: either_svma_range(bytes, "__eh_frame", ".eh_frame"),
        eh_frame: either_section_data(bytes, "__eh_frame", ".eh_frame"),
        eh_frame_hdr_svma: either_svma_range(bytes, "__eh_frame_hdr", ".eh_frame_hdr"),
        eh_frame_hdr: either_section_data(bytes, "__eh_frame_hdr", ".eh_frame_hdr"),
        debug_frame: section_data(bytes, ".debug_frame"),
        text_segment_svma,
        text_segment,
    };
    assert(sections@ =~= module_sections_of(bytes@, views(segments@)));
    sections
}

// ---------------------------------------------------------------------------
// Addresses with call-frame information
// ---------------------------------------------------------------------------

/// The ranges of the first `count` entries, moved by `base`; those that leave the address space
/// or are empty do not count.
pub open spec fn moved_ranges(entries: Seq<(u64, u64)>, base: u64, count: int) -> Seq<AddressRange>
    decreases count,
{
    if count <= 0 {
        Seq::empty()
    } else {
        let entry = entries[count - 1];
        let before = moved_ranges(entries, base, count - 1);
        if base + entry.0 <= u64::MAX && base + entry.1 <= u64::MAX && entry.0 < entry.1 {
            before.push(
                AddressRange { start: (base + entry.0) as u64, end: (base + entry.1) as u64 },
            )
        } else {
            before
        }
    }
}

/// The entries of a call-frame section, if the object has one that can be read.
pub open spec fn cfi_entries_of(bytes: Seq<u8>) -> Seq<(u64, u64)> {
    let bases = cfi_bases_of(bytes);
    let first = match object_section_data_of(bytes, ".eh_frame"@) {
        Some(data) => {
            let items = eh_frame_items_of(data, bases);
            described(items, items.len() as int)
        },
        None => Seq::empty(),
    };
    let second = match object_section_data_of(bytes, ".debug_frame"@) {
        Some(data) => {
            let items = debug_frame_items_of(data, bases);
            described(items, items.len() as int)
        },
        None => Seq::empty(),
    };
    first + second
}

/// The addresses for which an object at `base` has call-frame information.
pub open spec fn unwind_ranges_of(bytes: Seq<u8>, base: u64) -> Seq<AddressRange> {
    let entries = cfi_entries_of(bytes);
    moved_ranges(entries, base, entries.len() as int)
}

fn push_unwind_range(ranges: &mut Vec<AddressRange>, base: u64, start: u64, end: u64)
    ensures
        final(ranges)@ == if base + start <= u64::MAX && base + end <= u64::MAX && start < end {
            old(ranges)@.push(
                AddressRange { start: (base + start) as u64, end: (base + end) as u64 },
            )
        } else {
            old(ranges)@
        },
{
    let moved_start: u64 = match base.checked_add(start) {
        Some(start) => start,
        None => return,
    };
    let moved_end: u64 = match base.checked_add(end) {
        Some(end) => end,
        None => return,
    };
    if moved_start < moved_end {
        ranges.push(AddressRange { start: moved_start, end: moved_end });
    }
}

proof fn moved_ranges_not_empty(entries: Seq<(u64, u64)>, base: u64, count: int)
    ensures
        forall|i: int|
            0 <= i < moved_ranges(entries, base, count).len() ==> (#[trigger] moved_ranges(
                entries,
                base,
                count,
            )[i]).start < moved_ranges(entries, base, count)[i].end,
    decreases count,
{
    if count > 0 {
        moved_ranges_not_empty(entries, base, count - 1);
        let before = moved_ranges(entries, base, count - 1);
        let all = moved_ranges(entries, base, count);
        assert forall|i: int| 0 <= i < all.len() implies (#[trigger] all[i]).start < all[i].end by {
            if i < before.len() {
                assert(all[i] == before[i]);
            }
        }
    }
}

/// Lists the addresses for which an object at `base` has call-frame information.
pub fn object_unwind_ranges(bytes: &[u8], base: u64) -> (ranges: Vec<AddressRange>)
    ensures
        normal(ranges@),
        forall|address: u64|
            covered(ranges@, address) <==> #[trigger] covered(
                unwind_ranges_of(bytes@, base),
                address,
            ),
{
    let bases = CfiBases {
        eh_frame_hdr: start_of(section_svma_range(bytes, ".eh_frame_hdr")),
        eh_frame: start_of(section_svma_range(bytes, ".eh_frame")),
        text: start_of(either_svma_range(bytes, "__text", ".text")),
        got: start_of(either_svma_range(bytes, "__got", ".got")),
    };
    let mut entries: Vec<(u64, u64)> = Vec::new();
    if let Some(data) = object_section_data(bytes, ".eh_frame") {
        push_described(&mut entries, &eh_frame_items(data.as_slice(), bases));
    }
    if let Some(data) = object_section_data(bytes, ".debug_frame") {
        push_described(&mut entries, &debug_frame_items(data.as_slice(), bases));
    }
    assert(entries@ =~= cfi_entries_of(bytes@));
    let mut ranges: Vec<AddressRange> = Vec::new();
    let mut i: usize = 0;
    while i < entries.len()
        invariant
            i <= entries@.len(),
            ranges@ == moved_ranges(entries@, base, i as int),
        decreases entries@.len() - i,
    {
        let entry = entries[i];
        push_unwind_range(&mut ranges, base, entry.0, entry.1);
        i += 1;
    }
    proof {
        moved_ranges_not_empty(entries@, base, entries@.len() as int);
    }
    normalize_ranges(ranges)
}

// ---------------------------------------------------------------------------
// Memory
// ---------------------------------------------------------------------------

/// Bytes that stand at an address of a process.
#[derive(Clone, Debug, Eq, PartialEq)]
pub struct ModuleMemorySegment {
    pub start: u64,
    pub bytes: Vec<u8>,
}

/// The contents of a [`ModuleMemorySegment`].
#[verifier::ext_equal]
pub struct MemoryModel {
    pub start: u64,
    pub bytes: Seq<u8>,
}

impl View for ModuleMemorySegment {
    type V = MemoryModel;

    open spec fn view(&self) -> MemoryModel {
        MemoryModel { start: self.start, bytes: self.bytes@ }
    }
}

/// The first `count` segments of an object at `base`, those whose bytes the file holds.
pub open spec fn memory_of(
    bytes: Seq<u8>,
    segments: Seq<SegmentModel>,
    base: u64,
    count: int,
) -> Seq<MemoryModel>
    decreases count,
{
    if count <= 0 {
        Seq::empty()
    } else {
        let segment = segments[count - 1];
        let before = memory_of(bytes, segments, base, count - 1);
        match file_part(bytes, (segment.file_offset, segment.file_size)) {
            Some(part) => before.push(
                MemoryModel { start: address_sum(base, segment.address), bytes: part },
            ),
            None => before,
        }
    }
}

/// Collects the bytes of an object's segments, each at its address.
pub fn module_memory_segments(
    bytes: &[u8],
    segments: &Vec<SegmentInfo>,
    base: u64,
) -> (memory: Vec<ModuleMemorySegment>)
    ensures
        views(memory@) == memory_of(bytes@, views(segments@), base, segments@.len() as int),
{
    let mut memory: Vec<ModuleMemorySegment> = Vec::new();
    let mut i: usize = 0;
    assert(views(memory@) =~= Seq::empty());
    while i < segments.len()
        invariant
            i <= segments@.len(),
            views(memory@) == memory_of(bytes@, views(segments@), base, i as int),
        decreases segments@.len() - i,
    {
        let segment = &segments[i];
        let ghost before = views(memory@);
        assert(views(segments@)[i as int] == segments@[i as int]@);
        if let Some(part) = map_file_range(bytes, (segment.file_offset, segment.file_size)) {
            let item = ModuleMemorySegment {
                start: base.saturating_add(segment.address),
                bytes: slice_to_vec(part),
            };
            memory.push(item);
            assert(views(memory@) =~= before.push(item@));
        }
        i += 1;
    }
    memory
}

// ---------------------------------------------------------------------------
// Laws
// ---------------------------------------------------------------------------

proof fn moved_ranges_cover_up_to(
    entries: Seq<(u64, u64)>,
    base: u64,
    count: int,
    address: u64,
)
    requires
        0 <= count <= entries.len(),
    ensures
        covered(moved_ranges(entries, base, count), address) <==> exists|i: int|
            0 <= i < count && base + (#[trigger] entries[i]).0 <= address < base + entries[i].1
                && base + entries[i].1 <= u64::MAX,
    decreases count,
{
    if count > 0 {
        moved_ranges_cover_up_to(entries, base, count - 1, address);
        let before = moved_ranges(entries, base, count - 1);
        let after = moved_ranges(entries, base, count);
        let entry = entries[count - 1];
        if covered(before, address) {
            let i = choose|i: int| 0 <= i < before.len() && (#[trigger] before[i]).holds(address);
            assert(after[i].holds(address));
        }
        if covered(after, address) {
            let i = choose|i: int| 0 <= i < after.len() && (#[trigger] after[i]).holds(address);
            if i < before.len() {
                assert(before[i].holds(address));
                let j = choose|j: int|
                    0 <= j < count - 1 && base + (#[trigger] entries[j]).0 <= address < base
                        + entries[j].1 && base + entries[j].1 <= u64::MAX;
                assert(base + entries[j].0 <= address < base + entries[j].1);
            } else {
                assert(base + entries[count - 1].0 <= address < base + entries[count - 1].1);
            }
        }
        if exists|i: int|
            0 <= i < count && base + (#[trigger] entries[i]).0 <= address < base + entries[i].1
                && base + entries[i].1 <= u64::MAX {
            let i = choose|i: int|
                0 <= i < count && base + (#[trigger] entries[i]).0 <= address < base
                    + entries[i].1 && base + entries[i].1 <= u64::MAX;
            if i == count - 1 {
                assert(after[before.len() as int].holds(address));
            } else {
                assert(base + entries[i].0 <= address < base + entries[i].1);
                assert(covered(before, address));
            }
        }
    }
}

/// An address has call-frame information just where one of the entries describes it, moved by
/// the base of the object, and does not leave the address space.
pub proof fn described_addresses_are_covered(bytes: Seq<u8>, base: u64, address: u64)
    ensures
        covered(unwind_ranges_of(bytes, base), address) <==> exists|i: int|
            0 <= i < cfi_entries_of(bytes).len() && base + (#[trigger] cfi_entries_of(bytes)[i]).0
                <= address < base + cfi_entries_of(bytes)[i].1 && base + cfi_entries_of(bytes)[i].1
                <= u64::MAX,
{
    let entries = cfi_entries_of(bytes);
    moved_ranges_cover_up_to(entries, base, entries.len() as int, address);
}

/// The addresses of an object go from the lowest to the highest of its segments that are not
/// empty: they hold all of these, and begin and end with one of them.
pub proof fn load_ranges_span_all_segments(segments: Seq<SegmentModel>, count: int)
    requires
        0 <= count <= segments.len(),
    ensures
        match load_span(segments, count) {
            None => forall|i: int| 0 <= i < count ==> (#[trigger] segments[i]).size == 0,
            Some(span) => {
                &&& forall|i: int|
                    0 <= i < count && (#[trigger] segments[i]).size > 0 ==> span.start
                        <= segments[i].address && address_sum(
                        segments[i].address,
                        segments[i].size,
                    ) <= span.end
                &&& exists|i: int|
                    0 <= i < count && (#[trigger] segments[i]).size > 0 && segments[i].address
                        == span.start
                &&& exists|i: int|
                    0 <= i < count && (#[trigger] segments[i]).size > 0 && address_sum(
                        segments[i].address,
                        segments[i].size,
                    ) == span.end
            },
        },
    decreases count,
{
    if count > 0 {
        load_ranges_span_all_segments(segments, count - 1);
        let segment = segments[count - 1];
        if let Some(before) = load_span(segments, count - 1) {
            let low = choose|i: int|
                0 <= i < count - 1 && (#[trigger] segments[i]).size > 0 && segments[i].address
                    == before.start;
            let high = choose|i: int|
                0 <= i < count - 1 && (#[trigger] segments[i]).size > 0 && address_sum(
                    segments[i].address,
                    segments[i].size,
                ) == before.end;
            assert(segments[low].address == before.start);
            assert(segments[high].size > 0);
        }
        assert(segments[count - 1] == segment);
    }
}

proof fn segments_are_mapped_up_to(
    bytes: Seq<u8>,
    segments: Seq<SegmentModel>,
    base: u64,
    count: int,
)
    requires
        0 <= count <= segments.len(),
    ensures
        memory_of(bytes, segments, base, count) == segments.take(count).filter_map(
            |segment: SegmentModel| segment_memory(bytes, segment, base),
        ),
    decreases count,
{
    if count > 0 {
        segments_are_mapped_up_to(bytes, segments, base, count - 1);
        assert(segments.take(count).drop_last() =~= segments.take(count - 1));
        assert(segments.take(count).last() == segments[count - 1]);
        let before = memory_of(bytes, segments, base, count - 1);
        let segment = segments[count - 1];
        if let Some(memory) = segment_memory(bytes, segment, base) {
            let part = file_part(bytes, (segment.file_offset, segment.file_size))->0;
            assert(part =~= memory.bytes);
            assert(before.push(memory) =~= before + seq![memory]);
        }
    }
}

/// The bytes of a segment at its place behind the base of its object, where the file holds all of
/// them.
pub open spec fn segment_memory(bytes: Seq<u8>, segment: SegmentModel, base: u64) -> Option<
    MemoryModel,
> {
    let (from, size) = (segment.file_offset, segment.file_size);
    if from <= usize::MAX && size <= usize::MAX && from + size <= bytes.len() {
        Some(
            MemoryModel {
                start: if base + segment.address > u64::MAX {
                    u64::MAX
                } else {
                    (base + segment.address) as u64
                },
                bytes: Seq::new(size as nat, |i: int| bytes[from + i]),
            },
        )
    } else {
        None
    }
}

/// The memory of an object holds each segment whose bytes are in the file, in their order.
pub proof fn segments_are_mapped_in_order(bytes: Seq<u8>, segments: Seq<SegmentModel>, base: u64)
    ensures
        memory_of(bytes, segments, base, segments.len() as int) == segments.filter_map(
            |segment: SegmentModel| segment_memory(bytes, segment, base),
        ),
{
    segments_are_mapped_up_to(bytes, segments, base, segments.len() as int);
    assert(segments.take(segments.len() as int) =~= segments);
}

/// The text segment of an object is the first one with that name.
pub proof fn first_text_segment_counts(segments: Seq<SegmentModel>, from: int)
    requires
        0 <= from <= segments.len(),
    ensures
        from <= text_segment_from(segments, from) <= segments.len(),
        forall|i: int|
            from <= i < text_segment_from(segments, from) ==> (#[trigger] segments[i]).name != Some(
                "__TEXT".spec_bytes(),
            ),
        text_segment_from(segments, from) < segments.len() ==> segments[text_segment_from(
            segments,
            from,
        )].name == Some("__TEXT".spec_bytes()),
    decreases segments.len() - from,
{
    if from < segments.len() && segments[from].name != Some("__TEXT".spec_bytes()) {
        first_text_segment_counts(segments, from + 1);
    }
}

/// The described addresses are those of the entries that describe some, in their order.
pub proof fn descriptions_are_kept_in_order(items: Seq<CfiItem>)
    ensures
        described(items, items.len() as int) == items.filter_map(
            |item: CfiItem|
                match item {
                    CfiItem::Described { start, end, .. } => Some((start, end)),
                    _ => None,
                },
        ),
{
    descriptions_are_kept(items, items.len() as int);
    assert(items.take(items.len() as int) =~= items);
}

proof fn descriptions_are_kept(items: Seq<CfiItem>, count: int)
    requires
        0 <= count <= items.len(),
    ensures
        described(items, count) == items.take(count).filter_map(
            |item: CfiItem|
                match item {
                    CfiItem::Described { start, end, .. } => Some((start, end)),
                    _ => None,
                },
        ),
    decreases count,
{
    reveal(Seq::filter_map);
    if count > 0 {
        descriptions_are_kept(items, count - 1);
        assert(items.take(count).drop_last() =~= items.take(count - 1));
        assert(items.take(count).last() == items[count - 1]);
    } else {
        assert(items.take(count) =~= Seq::empty());
    }
}

/// A part of a file is what stands at its place; a place behind the file's end has none.
pub proof fn parts_are_cut_out_of_files(front: Seq<u8>, part: Seq<u8>, behind: Seq<u8>, more: u64)
    requires
        front.len() + part.len() + behind.len() <= usize::MAX,
        front.len() + part.len() + behind.len() <= u64::MAX,
        more > 0,
    ensures
        file_part(front + part + behind, (front.len() as u64, part.len() as u64)) == Some(part),
        file_part(front + part, (front.len() as u64, (part.len() + more) as u64)) is None || part.len()
            + more > u64::MAX,
{
    let bytes = front + part + behind;
    assert(bytes.subrange(front.len() as int, front.len() + part.len() as int) =~= part);
}

/// Of two sections the first that is there counts.
pub proof fn first_section_that_is_there_counts(bytes: Seq<u8>, first: Seq<char>, second: Seq<char>)
    ensures
        section_contents(bytes, first) is Some ==> either_contents(bytes, first, second)
            == section_contents(bytes, first),
        section_contents(bytes, first) is None ==> either_contents(bytes, first, second)
            == section_contents(bytes, second),
        object_section_of(bytes, first) is Some ==> either_range(bytes, first, second)
            == section_range(bytes, first),
        object_section_of(bytes, first) is None ==> either_range(bytes, first, second)
            == section_range(bytes, second),
        object_section_of(bytes, first) matches Some(section) ==> (section_range(
            bytes,
            first,
        ) matches Some(range) && range.start == section.address && (section.address + section.size
            <= u64::MAX ==> range.end - range.start == section.size)),
{
}

} // verus!
