//! The `perf_file_attr` entries of the attribute section and the event ids they refer to.

use vstd::prelude::*;

use crate::perfdata::endian::{
    eight_bytes, end_error, four_bytes, le_u32, le_u64, u32_at, u64_at, unexpected_end,
    written_numbers_are_read,
};
use crate::perfdata::header::PerfHeader;
use crate::text::{after, decimal, joined, number_message, outcome, size_from_u64};

verus! {

broadcast use vstd::std_specs::control_flow::group_control_flow_axioms;

/// Bit of the attribute flags which says that every record ends with a sample id block.
pub const ATTR_FLAG_SAMPLE_ID_ALL: u64 = 0x4_0000;

#[derive(Clone, Copy, Debug, Eq, PartialEq, Structural)]
pub struct PerfFileAttr {
    pub event_type: u32,
    pub config: u64,
    pub sample_type: u64,
    pub read_format: u64,
    pub sample_id_all: bool,
    pub branch_sample_type: u64,
    pub sample_regs_user: u64,
    pub sample_regs_intr: u64,
    pub ids_offset: u64,
    pub ids_size: u64,
}

/// The 64-bit field `field` of the attribute at `start`, or zero where the attribute's stated
/// size does not reach it.
pub open spec fn attr_field(bytes: Seq<u8>, start: int, attr_size: int, field: int) -> u64 {
    if attr_size >= field + 8 {
        le_u64(bytes, start + field)
    } else {
        0
    }
}

/// The attribute entry at `start`, whose stated size is `attr_size`.
pub open spec fn file_attr_at(bytes: Seq<u8>, start: int, attr_size: int) -> PerfFileAttr {
    PerfFileAttr {
        event_type: le_u32(bytes, start),
        config: le_u64(bytes, start + 8),
        sample_type: le_u64(bytes, start + 24),
        read_format: attr_field(bytes, start, attr_size, 32),
        sample_id_all: attr_field(bytes, start, attr_size, 40) & ATTR_FLAG_SAMPLE_ID_ALL != 0,
        branch_sample_type: attr_field(bytes, start, attr_size, 72),
        sample_regs_user: attr_field(bytes, start, attr_size, 80),
        sample_regs_intr: attr_field(bytes, start, attr_size, 96),
        ids_offset: le_u64(bytes, start + attr_size),
        ids_size: le_u64(bytes, start + attr_size + 8),
    }
}

/// The attribute entries from `start` up to `end`.
pub open spec fn file_attrs_from(bytes: Seq<u8>, start: int, end: int) -> Result<
    Seq<PerfFileAttr>,
    Seq<char>,
>
    decreases end - start,
{
    if start >= end {
        Ok(Seq::empty())
    } else if start + 8 > bytes.len() {
        Err(unexpected_end(start + 4))
    } else {
        let attr_size = le_u32(bytes, start + 4) as int;
        if attr_size < 32 {
            Err("perf attr size is too small: "@ + decimal(attr_size as nat) + ""@)
        } else if attr_size + 16 > usize::MAX {
            Err("perf file attr size overflows usize"@)
        } else if start + attr_size + 16 > usize::MAX {
            Err("perf file attr offset overflows usize"@)
        } else if start + attr_size + 16 > end {
            Err("perf file attr extends past attr section"@)
        } else {
            after(
                seq![file_attr_at(bytes, start, attr_size)],
                file_attrs_from(bytes, start + attr_size + 16, end),
            )
        }
    }
}

/// The message for a 64-bit value that is too large for a machine size.
pub open spec fn does_not_fit(name: Seq<char>) -> Seq<char> {
    name + " does not fit in usize"@
}

/// All attribute entries of a file.
pub open spec fn file_attrs_of(bytes: Seq<u8>, header: PerfHeader) -> Result<
    Seq<PerfFileAttr>,
    Seq<char>,
> {
    if header.attr_offset > usize::MAX {
        Err(does_not_fit("perf attr section offset"@))
    } else if header.attr_size > usize::MAX {
        Err(does_not_fit("perf attr section size"@))
    } else if header.attr_size == 0 {
        Ok(Seq::empty())
    } else if header.attr_offset + header.attr_size > usize::MAX {
        Err("perf attr section size overflows usize"@)
    } else if header.attr_offset + header.attr_size > bytes.len() {
        Err("perf attr section extends past end of file"@)
    } else {
        file_attrs_from(
            bytes,
            header.attr_offset as int,
            header.attr_offset + header.attr_size,
        )
    }
}

/// Converts a 64-bit value to a machine size, naming it in the error.
pub fn to_usize(value: u64, name: &str) -> (result: Result<usize, String>)
    ensures
        match result {
            Ok(size) => size == value,
            Err(error) => value > usize::MAX && error@ == does_not_fit(name@),
        },
{
    match size_from_u64(value) {
        Some(size) => Ok(size),
        None => Err(joined(name, " does not fit in usize")),
    }
}

fn read_optional_attr_u64(
    bytes: &[u8],
    attr_start: usize,
    attr_size: usize,
    field_offset: usize,
) -> (value: u64)
    requires
        attr_start + attr_size <= bytes.len(),
        field_offset <= 96,
    ensures
        value == attr_field(bytes@, attr_start as int, attr_size as int, field_offset as int),
{
    if attr_size >= field_offset + 8 {
        u64_at(bytes, attr_start + field_offset)
    } else {
        0
    }
}

fn file_attr(bytes: &[u8], start: usize, attr_size: usize) -> (attr: PerfFileAttr)
    requires
        32 <= attr_size,
        start + attr_size + 16 <= bytes.len(),
    ensures
        attr == file_attr_at(bytes@, start as int, attr_size as int),
{
    let flags: u64 = read_optional_attr_u64(bytes, start, attr_size, 40);
    PerfFileAttr {
        event_type: u32_at(bytes, start),
        config: u64_at(bytes, start + 8),
        sample_type: u64_at(bytes, start + 24),
        read_format: read_optional_attr_u64(bytes, start, attr_size, 32),
        sample_id_all: flags & ATTR_FLAG_SAMPLE_ID_ALL != 0,
        branch_sample_type: read_optional_attr_u64(bytes, start, attr_size, 72),
        sample_regs_user: read_optional_attr_u64(bytes, start, attr_size, 80),
        sample_regs_intr: read_optional_attr_u64(bytes, start, attr_size, 96),
        ids_offset: u64_at(bytes, start + attr_size),
        ids_size: u64_at(bytes, start + attr_size + 8),
    }
}

/// Parses the `perf_file_attr` records from the attr section.
///
/// # Errors
///
/// Returns an error when the attr section points outside the file or contains
/// truncated attr records.
pub fn parse_file_attrs(bytes: &[u8], header: PerfHeader) -> (result: Result<
    Vec<PerfFileAttr>,
    String,
>)
    ensures
        outcome(result) == file_attrs_of(bytes@, header),
{
    let offset: usize = to_usize(header.attr_offset, "perf attr section offset")?;
    let size: usize = to_usize(header.attr_size, "perf attr section size")?;
    if size == 0 {
        return Ok(Vec::new());
    }
    let end: usize = match offset.checked_add(size) {
        Some(end) => end,
        None => return Err("perf attr section size overflows usize".to_string()),
    };
    if end > bytes.len() {
        return Err("perf attr section extends past end of file".to_string());
    }
    let mut attrs: Vec<PerfFileAttr> = Vec::new();
    let mut cursor: usize = offset;
    proof {
        if let Ok(items) = file_attrs_from(bytes@, offset as int, end as int) {
            assert(attrs@ + items =~= items);
        }
    }
    while cursor < end
        invariant
            end <= bytes.len(),
            file_attrs_of(bytes@, header) == after(
                attrs@,
                file_attrs_from(bytes@, cursor as int, end as int),
            ),
        decreases end - cursor,
    {
        if bytes.len() - cursor < 8 {
            return Err(end_error(cursor, 4));
        }
        let attr_size: usize = u32_at(bytes, cursor + 4) as usize;
        if attr_size < 32 {
            return Err(number_message("perf attr size is too small: ", attr_size as u64, ""));
        }
        let file_attr_size: usize = match attr_size.checked_add(16) {
            Some(size) => size,
            None => return Err("perf file attr size overflows usize".to_string()),
        };
        let next: usize = match cursor.checked_add(file_attr_size) {
            Some(next) => next,
            None => return Err("perf file attr offset overflows usize".to_string()),
        };
        if next > end {
            return Err("perf file attr extends past attr section".to_string());
        }
        let attr = file_attr(bytes, cursor, attr_size);
        let ghost before = attrs@;
        attrs.push(attr);
        cursor = next;
        proof {
            let rest = file_attrs_from(bytes@, next as int, end as int);
            if let Ok(items) = rest {
                assert(before + (seq![attr] + items) =~= attrs@ + items);
            }
        }
    }
    assert(attrs@ + Seq::<PerfFileAttr>::empty() =~= attrs@);
    Ok(attrs)
}

/// The ids stored from `start` up to `end`, eight bytes each.
pub open spec fn ids_between(bytes: Seq<u8>, start: int, end: int) -> Seq<u64> {
    Seq::new(((end - start) / 8) as nat, |i: int| le_u64(bytes, start + 8 * i))
}

/// The event ids that an attribute refers to.
pub open spec fn attr_ids_of(bytes: Seq<u8>, attr: PerfFileAttr) -> Result<Seq<u64>, Seq<char>> {
    if attr.ids_size % 8 != 0 {
        Err("perf attr id section size is not a multiple of 8"@)
    } else if attr.ids_offset > usize::MAX {
        Err(does_not_fit("perf attr id section offset"@))
    } else if attr.ids_size > usize::MAX {
        Err(does_not_fit("perf attr id section size"@))
    } else if attr.ids_offset + attr.ids_size > usize::MAX {
        Err("perf attr id section size overflows usize"@)
    } else if attr.ids_offset + attr.ids_size > bytes.len() {
        Err("perf attr id section extends past end of file"@)
    } else {
        Ok(ids_between(bytes, attr.ids_offset as int, attr.ids_offset + attr.ids_size))
    }
}

/// Parses the event IDs referenced by a `perf_file_attr`.
///
/// # Errors
///
/// Returns an error when the ID section is not `u64` aligned or points outside
/// the file.
pub fn parse_file_attr_ids(bytes: &[u8], attr: &PerfFileAttr) -> (result: Result<Vec<u64>, String>)
    ensures
        outcome(result) == attr_ids_of(bytes@, *attr),
{
    if attr.ids_size % 8 != 0 {
        return Err("perf attr id section size is not a multiple of 8".to_string());
    }
    let offset: usize = to_usize(attr.ids_offset, "perf attr id section offset")?;
    let size: usize = to_usize(attr.ids_size, "perf attr id section size")?;
    let end: usize = match offset.checked_add(size) {
        Some(end) => end,
        None => return Err("perf attr id section size overflows usize".to_string()),
    };
    if end > bytes.len() {
        return Err("perf attr id section extends past end of file".to_string());
    }
    let mut ids: Vec<u64> = Vec::with_capacity(size / 8);
    let mut cursor: usize = offset;
    while cursor < end
        invariant
            offset <= cursor <= end <= bytes.len(),
            (cursor - offset) % 8 == 0,
            (end - offset) % 8 == 0,
            ids@ == ids_between(bytes@, offset as int, cursor as int),
        decreases end - cursor,
    {
        ids.push(u64_at(bytes, cursor));
        cursor += 8;
        assert(ids@ =~= ids_between(bytes@, offset as int, cursor as int));
    }
    Ok(ids)
}

// ---------------------------------------------------------------------------
// Laws
// ---------------------------------------------------------------------------

/// An attribute is read as it was written, wherever its bytes stand: the numbers that say what is
/// sampled, then the place and size of its ids behind as many bytes as it states.
#[verifier::rlimit(60)]
pub proof fn written_attributes_are_read(
    bytes: Seq<u8>,
    start: int,
    attr: PerfFileAttr,
    attr_size: u32,
    flags: u64,
)
    requires
        0 <= start,
        104 <= attr_size,
        start + attr_size + 16 <= bytes.len(),
        bytes.subrange(start, start + 4) == four_bytes(attr.event_type),
        bytes.subrange(start + 8, start + 16) == eight_bytes(attr.config),
        bytes.subrange(start + 24, start + 32) == eight_bytes(attr.sample_type),
        bytes.subrange(start + 32, start + 40) == eight_bytes(attr.read_format),
        bytes.subrange(start + 40, start + 48) == eight_bytes(flags),
        attr.sample_id_all == (flags & 0x4_0000 != 0),
        bytes.subrange(start + 72, start + 80) == eight_bytes(attr.branch_sample_type),
        bytes.subrange(start + 80, start + 88) == eight_bytes(attr.sample_regs_user),
        bytes.subrange(start + 96, start + 104) == eight_bytes(attr.sample_regs_intr),
        bytes.subrange(start + attr_size, start + attr_size + 8) == eight_bytes(attr.ids_offset),
        bytes.subrange(start + attr_size + 8, start + attr_size + 16) == eight_bytes(attr.ids_size),
    ensures
        file_attr_at(bytes, start, attr_size as int) == attr,
{
    written_numbers_are_read(bytes, start, attr.event_type, 0);
    written_numbers_are_read(bytes, start + 8, 0, attr.config);
    written_numbers_are_read(bytes, start + 24, 0, attr.sample_type);
    written_numbers_are_read(bytes, start + 32, 0, attr.read_format);
    written_numbers_are_read(bytes, start + 40, 0, flags);
    written_numbers_are_read(bytes, start + 72, 0, attr.branch_sample_type);
    written_numbers_are_read(bytes, start + 80, 0, attr.sample_regs_user);
    written_numbers_are_read(bytes, start + 96, 0, attr.sample_regs_intr);
    written_numbers_are_read(bytes, start + attr_size, 0, attr.ids_offset);
    written_numbers_are_read(bytes, start + attr_size + 8, 0, attr.ids_size);
}

/// What lies behind the stated size of an attribute does not belong to it: those fields are zero.
pub proof fn missing_fields_are_zero(bytes: Seq<u8>, start: int, attr_size: int)
    ensures
        ({
            let attr = file_attr_at(bytes, start, attr_size);
            &&& attr_size < 40 ==> attr.read_format == 0
            &&& attr_size < 48 ==> !attr.sample_id_all
            &&& attr_size < 80 ==> attr.branch_sample_type == 0
            &&& attr_size < 88 ==> attr.sample_regs_user == 0
            &&& attr_size < 104 ==> attr.sample_regs_intr == 0
        }),
{
    let none = 0u64;
    assert(none & ATTR_FLAG_SAMPLE_ID_ALL == 0) by (bit_vector)
        requires
            none == 0u64,
    ;
}

/// Whether attributes of some sizes stand one behind the other from a place on, each with the
/// place and size of its ids behind it.
pub open spec fn stand_in_a_row(bytes: Seq<u8>, start: int, sizes: Seq<u32>) -> bool
    decreases sizes.len(),
{
    sizes.len() > 0 ==> {
        &&& 32 <= sizes[0]
        &&& start + sizes[0] + 16 <= bytes.len()
        &&& bytes.subrange(start + 4, start + 8) == four_bytes(sizes[0])
        &&& stand_in_a_row(bytes, start + sizes[0] + 16, sizes.skip(1))
    }
}

/// How far attributes of some sizes reach.
pub open spec fn row_len(sizes: Seq<u32>) -> int
    decreases sizes.len(),
{
    if sizes.len() == 0 {
        0
    } else {
        sizes[0] + 16 + row_len(sizes.skip(1))
    }
}

/// All attributes that stand in a row are read, each from where the one in front of it ends.
pub proof fn attributes_are_read_one_by_one(bytes: Seq<u8>, start: int, sizes: Seq<u32>)
    requires
        0 <= start,
        bytes.len() <= usize::MAX,
        stand_in_a_row(bytes, start, sizes),
    ensures
        file_attrs_from(bytes, start, start + row_len(sizes)) == Ok::<Seq<PerfFileAttr>, Seq<char>>(
            Seq::new(
                sizes.len(),
                |i: int|
                    file_attr_at(bytes, start + row_len(sizes.take(i)), sizes[i] as int),
            ),
        ),
    decreases sizes.len(),
{
    let all = Seq::new(
        sizes.len(),
        |i: int| file_attr_at(bytes, start + row_len(sizes.take(i)), sizes[i] as int),
    );
    rows_are_long(sizes);
    if sizes.len() > 0 {
        let next = start + sizes[0] + 16;
        let rest = sizes.skip(1);
        written_numbers_are_read(bytes, start + 4, sizes[0], 0);
        attributes_are_read_one_by_one(bytes, next, rest);
        rows_are_long(rest);
        let behind = Seq::new(
            rest.len(),
            |i: int| file_attr_at(bytes, next + row_len(rest.take(i)), rest[i] as int),
        );
        let first = file_attr_at(bytes, start, sizes[0] as int);
        assert forall|i: int| 0 <= i < all.len() implies #[trigger] all[i] == (seq![first]
            + behind)[i] by {
            if i > 0 {
                assert(sizes.take(i).skip(1) =~= rest.take(i - 1));
                assert(sizes.take(i)[0] == sizes[0]);
                assert(row_len(sizes.take(i)) == sizes[0] + 16 + row_len(rest.take(i - 1)));
                assert(behind[i - 1] == all[i]);
            } else {
                assert(sizes.take(0) =~= Seq::empty());
            }
        }
        assert(all =~= seq![first] + behind);
    } else {
        assert(all =~= Seq::empty());
    }
}

proof fn rows_are_long(sizes: Seq<u32>)
    ensures
        row_len(sizes) >= 16 * sizes.len(),
    decreases sizes.len(),
{
    if sizes.len() > 0 {
        rows_are_long(sizes.skip(1));
    }
}

/// The ids of an attribute are read as they were written, one behind the other.
pub proof fn written_ids_are_read(bytes: Seq<u8>, attr: PerfFileAttr, ids: Seq<u64>)
    requires
        bytes.len() <= usize::MAX,
        attr.ids_size == 8 * ids.len(),
        attr.ids_offset + attr.ids_size <= bytes.len(),
        forall|i: int|
            0 <= i < ids.len() ==> bytes.subrange(
                attr.ids_offset + 8 * i,
                attr.ids_offset + 8 * i + 8,
            ) == eight_bytes(#[trigger] ids[i]),
    ensures
        attr_ids_of(bytes, attr) == Ok::<Seq<u64>, Seq<char>>(ids),
{
    let read = ids_between(bytes, attr.ids_offset as int, attr.ids_offset + attr.ids_size);
    assert forall|i: int| 0 <= i < ids.len() implies #[trigger] read[i] == ids[i] by {
        written_numbers_are_read(bytes, attr.ids_offset + 8 * i, 0, ids[i]);
    }
    assert(read =~= ids);
}

} // verus!
