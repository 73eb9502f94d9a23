//! The fixed header of a `perf.data` file and its table of feature sections.

use vstd::prelude::*;

use crate::perfdata::endian::{
    eight_bytes, le_u64, read_u64, u64_at, unexpected_end, written_numbers_are_read,
};
use crate::text::{decimal, number_message, outcome, size_from_u64};

verus! {

broadcast use vstd::std_specs::control_flow::group_control_flow_axioms;

/// Number of bytes of the fixed header.
pub const HEADER_LEN: usize = 104;

/// Where the bitmap of present features begins: behind the magic, the two sizes and the
/// attribute, data and event-type sections.
pub const FEATURE_BITMAP_OFFSET: usize = 72;

#[derive(Clone, Copy, Debug, Eq, PartialEq, Structural)]
pub struct PerfHeader {
    pub header_size: u64,
    pub attr_offset: u64,
    pub attr_size: u64,
    pub data_offset: u64,
    pub data_size: u64,
}

#[derive(Clone, Copy, Debug, Eq, PartialEq, Structural)]
pub struct PerfFeatureSection {
    pub feature: u16,
    pub offset: u64,
    pub size: u64,
}

impl View for PerfHeader {
    type V = PerfHeader;

    open spec fn view(&self) -> PerfHeader {
        *self
    }
}

/// Whether a byte string begins with the eight bytes `PERFILE2`.
pub open spec fn has_perf_magic(bytes: Seq<u8>) -> bool {
    bytes.len() >= 8 && bytes.subrange(0, 8) == seq![80u8, 69, 82, 70, 73, 76, 69, 50]
}

/// The header that the first bytes of a file state, or why they state none.
pub open spec fn header_of(bytes: Seq<u8>) -> Result<PerfHeader, Seq<char>> {
    if bytes.len() < HEADER_LEN {
        Err("perf.data header is shorter than 104 bytes"@)
    } else if !has_perf_magic(bytes) {
        Err("perf.data magic is not PERFILE2"@)
    } else if le_u64(bytes, 8) < HEADER_LEN {
        Err("perf.data header size is too small: "@ + decimal(le_u64(bytes, 8) as nat) + ""@)
    } else if le_u64(bytes, 24) + le_u64(bytes, 32) > u64::MAX {
        Err("perf attribute section size overflows u64"@)
    } else if le_u64(bytes, 40) + le_u64(bytes, 48) > u64::MAX {
        Err("perf data section size overflows u64"@)
    } else {
        Ok(
            PerfHeader {
                header_size: le_u64(bytes, 8),
                attr_offset: le_u64(bytes, 24),
                attr_size: le_u64(bytes, 32),
                data_offset: le_u64(bytes, 40),
                data_size: le_u64(bytes, 48),
            },
        )
    }
}

/// Parses the fixed-size `perf.data` file header.
///
/// # Errors
///
/// Returns an error when the file is too short, has the wrong magic, or
/// contains invalid section offsets.
pub fn parse_header(bytes: &[u8]) -> (result: Result<PerfHeader, String>)
    ensures
        outcome(result) == header_of(bytes@),
{
    if bytes.len() < HEADER_LEN {
        return Err("perf.data header is shorter than 104 bytes".to_string());
    }
    let magic: [u8; 8] = [80, 69, 82, 70, 73, 76, 69, 50];
    let mut i: usize = 0;
    while i < 8
        invariant
            i <= 8,
            bytes.len() >= HEADER_LEN,
            magic@ == seq![80u8, 69, 82, 70, 73, 76, 69, 50],
            bytes@.subrange(0, i as int) == magic@.subrange(0, i as int),
        decreases 8 - i,
    {
        if bytes[i] != magic[i] {
            assert(bytes@.subrange(0, 8)[i as int] != magic@[i as int]);
            return Err("perf.data magic is not PERFILE2".to_string());
        }
        assert(bytes@.subrange(0, i + 1) =~= bytes@.subrange(0, i as int).push(bytes@[i as int]));
        assert(magic@.subrange(0, i + 1) =~= magic@.subrange(0, i as int).push(magic@[i as int]));
        i += 1;
    }
    assert(magic@.subrange(0, 8) =~= magic@);
    let header_size: u64 = u64_at(bytes, 8);
    if header_size < HEADER_LEN as u64 {
        return Err(number_message("perf.data header size is too small: ", header_size, ""));
    }
    let attr_offset: u64 = u64_at(bytes, 24);
    let attr_size: u64 = u64_at(bytes, 32);
    if attr_offset.checked_add(attr_size).is_none() {
        return Err("perf attribute section size overflows u64".to_string());
    }
    let data_offset: u64 = u64_at(bytes, 40);
    let data_size: u64 = u64_at(bytes, 48);
    if data_offset.checked_add(data_size).is_none() {
        return Err("perf data section size overflows u64".to_string());
    }
    Ok(PerfHeader { header_size, attr_offset, attr_size, data_offset, data_size })
}

/// Whether a feature's bit is set in the bitmap that begins at `base`.
pub open spec fn feature_present(bytes: Seq<u8>, base: int, feature: int) -> bool {
    le_u64(bytes, base + 8 * (feature / 64)) & (1u64 << ((feature % 64) as u64)) != 0
}

/// The features below `limit` whose bits are set, in ascending order.
pub open spec fn features_below(bytes: Seq<u8>, base: int, limit: int) -> Seq<u16>
    decreases limit,
{
    if limit <= 0 {
        Seq::empty()
    } else if feature_present(bytes, base, limit - 1) {
        features_below(bytes, base, limit - 1).push((limit - 1) as u16)
    } else {
        features_below(bytes, base, limit - 1)
    }
}

/// All features whose bits are set in a header's bitmap of 256 bits.
pub open spec fn header_features(bytes: Seq<u8>) -> Seq<u16> {
    features_below(bytes, FEATURE_BITMAP_OFFSET as int, 256)
}

/// The features whose bits are set in a file's header; the error names the first word of the
/// bitmap that is not present.
pub open spec fn feature_bits_of(bytes: Seq<u8>) -> Result<Seq<u16>, Seq<char>> {
    let base = FEATURE_BITMAP_OFFSET as int;
    if bytes.len() >= base + 32 {
        Ok(header_features(bytes))
    } else if bytes.len() < base {
        Err(unexpected_end(base))
    } else {
        Err(unexpected_end(base + 8 * ((bytes.len() - base) / 8)))
    }
}

/// Lists the features whose bits are set in the header.
///
/// # Errors
///
/// Returns an error when the bitmap is not wholly present.
pub fn set_feature_bits(bytes: &[u8]) -> (result: Result<Vec<u16>, String>)
    ensures
        outcome(result) == feature_bits_of(bytes@),
{
    let mut features: Vec<u16> = Vec::new();
    let mut feature: u16 = 0;
    while feature < 256
        invariant
            feature <= 256,
            feature > 0 ==> FEATURE_BITMAP_OFFSET + 8 * ((feature - 1) / 64) + 8 <= bytes@.len(),
            features@ == features_below(bytes@, FEATURE_BITMAP_OFFSET as int, feature as int),
        decreases 256 - feature,
    {
        let word: u64 = read_u64(bytes, FEATURE_BITMAP_OFFSET + 8 * (feature as usize / 64))?;
        let bit: u64 = (feature % 64) as u64;
        if word & (1u64 << bit) != 0 {
            features.push(feature);
        }
        feature += 1;
    }
    Ok(features)
}

/// The table entries of the first `count` features, when the table begins at `table`; the
/// error is that of the first entry that is not wholly present.
pub open spec fn feature_entries(
    bytes: Seq<u8>,
    table: int,
    features: Seq<u16>,
    count: int,
) -> Result<Seq<PerfFeatureSection>, Seq<char>>
    decreases count,
{
    if count <= 0 {
        Ok(Seq::empty())
    } else {
        match feature_entries(bytes, table, features, count - 1) {
            Err(error) => Err(error),
            Ok(entries) => {
                let at = table + 16 * (count - 1);
                if at + 8 > bytes.len() {
                    Err(unexpected_end(at))
                } else if at + 16 > bytes.len() {
                    Err(unexpected_end(at + 8))
                } else {
                    Ok(
                        entries.push(
                            PerfFeatureSection {
                                feature: features[count - 1],
                                offset: le_u64(bytes, at),
                                size: le_u64(bytes, at + 8),
                            },
                        ),
                    )
                }
            },
        }
    }
}

/// The feature sections of a file, in the order of their feature numbers. Their table follows
/// the data section.
pub open spec fn feature_sections_of(bytes: Seq<u8>, header: PerfHeader) -> Result<
    Seq<PerfFeatureSection>,
    Seq<char>,
> {
    let table = header.data_offset + header.data_size;
    if table > u64::MAX {
        Err("perf.data feature table offset overflows u64"@)
    } else if table > usize::MAX {
        Err("perf.data feature table offset exceeds usize"@)
    } else {
        match feature_bits_of(bytes) {
            Ok(features) => feature_entries(bytes, table, features, features.len() as int),
            Err(error) => Err(error),
        }
    }
}

fn feature_table_offset(header: &PerfHeader) -> (result: Result<usize, String>)
    ensures
        match result {
            Ok(offset) => offset == header.data_offset + header.data_size,
            Err(error) => {
                let table = header.data_offset + header.data_size;
                if table > u64::MAX {
                    error@ == "perf.data feature table offset overflows u64"@
                } else {
                    table > usize::MAX && error@ == "perf.data feature table offset exceeds usize"@
                }
            },
        },
{
    let offset: u64 = match header.data_offset.checked_add(header.data_size) {
        Some(offset) => offset,
        None => return Err("perf.data feature table offset overflows u64".to_string()),
    };
    match size_from_u64(offset) {
        Some(offset) => Ok(offset),
        None => Err("perf.data feature table offset exceeds usize".to_string()),
    }
}

/// An error in an earlier entry is the error of the whole table.
proof fn feature_entries_error(
    bytes: Seq<u8>,
    table: int,
    features: Seq<u16>,
    count: int,
    total: int,
)
    requires
        0 <= count <= total,
        feature_entries(bytes, table, features, count) is Err,
    ensures
        feature_entries(bytes, table, features, total) == feature_entries(
            bytes,
            table,
            features,
            count,
        ),
    decreases total - count,
{
    if count < total {
        assert(feature_entries(bytes, table, features, count + 1) == feature_entries(
            bytes,
            table,
            features,
            count,
        ));
        feature_entries_error(bytes, table, features, count + 1, total);
    }
}

/// Parses optional perf header feature sections.
///
/// # Errors
///
/// Returns an error when the feature table is truncated or offsets overflow.
pub fn parse_feature_sections(bytes: &[u8], header: &PerfHeader) -> (result: Result<
    Vec<PerfFeatureSection>,
    String,
>)
    ensures
        outcome(result) == feature_sections_of(bytes@, *header),
{
    let table: usize = feature_table_offset(header)?;
    let mut sections: Vec<PerfFeatureSection> = Vec::new();
    let features = set_feature_bits(bytes)?;
    let mut index: usize = 0;
    while index < features.len()
        invariant
            index <= features@.len(),
            feature_bits_of(bytes@) == Ok::<Seq<u16>, Seq<char>>(features@),
            table == header.data_offset + header.data_size,
            index > 0 ==> table + 16 * index <= bytes.len(),
            feature_entries(bytes@, table as int, features@, index as int) == Ok::<
                Seq<PerfFeatureSection>,
                Seq<char>,
            >(sections@),
        decreases features@.len() - index,
    {
        let at: usize = table + 16 * index;
        let ghost total = features@.len() as int;
        let offset: u64 = match read_u64(bytes, at) {
            Ok(offset) => offset,
            Err(error) => {
                proof {
                    feature_entries_error(bytes@, table as int, features@, index + 1, total);
                }
                return Err(error);
            },
        };
        let size: u64 = match read_u64(bytes, at + 8) {
            Ok(size) => size,
            Err(error) => {
                proof {
                    feature_entries_error(bytes@, table as int, features@, index + 1, total);
                }
                return Err(error);
            },
        };
        sections.push(PerfFeatureSection { feature: features[index], offset, size });
        index += 1;
    }
    Ok(sections)
}

// ---------------------------------------------------------------------------
// Laws
// ---------------------------------------------------------------------------

proof fn set_features_are_listed_up_to(bytes: Seq<u8>, base: int, limit: int)
    requires
        0 <= limit <= 256,
    ensures
        features_below(bytes, base, limit) == Seq::new(
            limit as nat,
            |feature: int| feature as u16,
        ).filter(|feature: u16| feature_present(bytes, base, feature as int)),
    decreases limit,
{
    reveal(Seq::filter);
    let all = Seq::new(limit as nat, |feature: int| feature as u16);
    if limit > 0 {
        set_features_are_listed_up_to(bytes, base, limit - 1);
        assert(all.drop_last() =~= Seq::new(
            (limit - 1) as nat,
            |feature: int| feature as u16,
        ));
        assert(all.last() == (limit - 1) as u16);
    }
}

/// The features of a file are the numbers below 256 whose bits are set, in increasing order.
pub proof fn set_features_are_listed_in_order(bytes: Seq<u8>)
    ensures
        header_features(bytes) == Seq::new(256, |feature: int| feature as u16).filter(
            |feature: u16| feature_present(bytes, 72, feature as int),
        ),
{
    set_features_are_listed_up_to(bytes, 72, 256);
}

/// The sections of the features stand one behind the other in a table behind the data: sixteen
/// bytes each, first where a section begins and then its size. They are read just where all of
/// the table is there.
pub proof fn sections_stand_in_a_table(bytes: Seq<u8>, table: int, features: Seq<u16>, count: int)
    requires
        0 <= table,
        0 <= count <= features.len(),
    ensures
        feature_entries(bytes, table, features, count) is Ok <==> count == 0 || table + 16 * count
            <= bytes.len(),
        feature_entries(bytes, table, features, count) matches Ok(entries) ==> {
            &&& entries.len() == count
            &&& forall|i: int|
                0 <= i < count ==> #[trigger] entries[i] == (PerfFeatureSection {
                    feature: features[i],
                    offset: le_u64(bytes, table + 16 * i),
                    size: le_u64(bytes, table + 16 * i + 8),
                })
        },
    decreases count,
{
    if count > 0 {
        sections_stand_in_a_table(bytes, table, features, count - 1);
    }
}

/// A header is read as it was written: the eight letters of the format, its size, and the places
/// and sizes of its two sections.
pub proof fn written_headers_are_read(bytes: Seq<u8>, header: PerfHeader)
    requires
        bytes.len() >= 104,
        bytes.subrange(0, 8) == seq![80u8, 69, 82, 70, 73, 76, 69, 50],
        bytes.subrange(8, 16) == eight_bytes(header.header_size),
        bytes.subrange(24, 32) == eight_bytes(header.attr_offset),
        bytes.subrange(32, 40) == eight_bytes(header.attr_size),
        bytes.subrange(40, 48) == eight_bytes(header.data_offset),
        bytes.subrange(48, 56) == eight_bytes(header.data_size),
    ensures
        header_of(bytes) is Ok <==> header.header_size >= 104 && header.attr_offset
            + header.attr_size <= u64::MAX && header.data_offset + header.data_size <= u64::MAX,
        header_of(bytes) matches Ok(read) ==> read == header,
{
    written_numbers_are_read(bytes, 8, 0, header.header_size);
    written_numbers_are_read(bytes, 24, 0, header.attr_offset);
    written_numbers_are_read(bytes, 32, 0, header.attr_size);
    written_numbers_are_read(bytes, 40, 0, header.data_offset);
    written_numbers_are_read(bytes, 48, 0, header.data_size);
}

} // verus!
