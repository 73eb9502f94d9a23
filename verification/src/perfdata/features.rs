//! What a file's features say of the recording: the machine, and the build ids of objects.

use vstd::prelude::*;
use vstd::slice::slice_subrange;
use vstd::utf8::{decode_utf8, encode_utf8, is_ascii_chars, is_ascii_chars_encode_utf8, valid_utf8};

use crate::perfdata::build_id::{
    build_id_events_from_perfdata, build_id_events_of, hex_text, BuildIdEvent, BuildIdModel,
};
use crate::perfdata::endian::{le_u32, read_u32, unexpected_end};
use crate::perfdata::header::{feature_sections_of, parse_feature_sections, PerfHeader};
use crate::perfdata::layouts::{find_section, section_for};
use crate::perfdata::unwind::{arch_named, PerfArch};
use crate::tables::NamedBytes;
use crate::text::{
    chars_of, decimal, digit_char, find_byte, first_from, hexadecimal, joined,
    number_message, size_from_u64, text_from_utf8, text_view, utf8_error, views,
};

verus! {

broadcast use vstd::std_specs::control_flow::group_control_flow_axioms;

/// The feature whose section names the machine's architecture.
pub const HEADER_ARCH_FEATURE: u16 = 6;

// ---------------------------------------------------------------------------
// The machine
// ---------------------------------------------------------------------------

/// The name in an architecture section: a length, then that many bytes, up to a zero byte.
pub open spec fn arch_name_of(payload: Seq<u8>) -> Result<Seq<char>, Seq<char>> {
    if payload.len() < 4 {
        Err(unexpected_end(0))
    } else {
        let len = le_u32(payload, 0);
        if 4 + len > payload.len() {
            Err("arch feature string is truncated"@)
        } else {
            let text = payload.subrange(4, 4 + len);
            let name = text.subrange(0, first_from(text, 0, 0));
            if valid_utf8(name) {
                Ok(decode_utf8(name))
            } else {
                Err("arch feature string is not UTF-8: "@ + utf8_error(name))
            }
        }
    }
}

/// The name of the machine's architecture, where the file states one.
pub open spec fn header_arch_of(bytes: Seq<u8>, header: PerfHeader) -> Result<
    Option<Seq<char>>,
    Seq<char>,
> {
    match feature_sections_of(bytes, header) {
        Err(error) => Err(error),
        Ok(sections) => match section_for(sections, HEADER_ARCH_FEATURE, 0) {
            None => Ok(None),
            Some(section) => if section.offset + section.size > bytes.len() {
                Err("arch feature payload extends past end of file"@)
            } else {
                match arch_name_of(
                    bytes.subrange(section.offset as int, section.offset + section.size),
                ) {
                    Ok(name) => Ok(Some(name)),
                    Err(error) => Err(error),
                }
            },
        },
    }
}

/// Reads the name in an architecture section.
///
/// # Errors
///
/// Returns an error when the section is cut short or the name is no text.
pub fn parse_arch_name(payload: &[u8]) -> (result: Result<String, String>)
    ensures
        crate::text::outcome(result) == arch_name_of(payload@),
{
    let total: usize = payload.len();
    let len: usize = read_u32(payload, 0)? as usize;
    if len > total - 4 {
        return Err("arch feature string is truncated".to_string());
    }
    let text = slice_subrange(payload, 4, 4 + len);
    let end: usize = find_byte(text, 0, 0);
    match text_from_utf8(slice_subrange(text, 0, end)) {
        Ok(name) => Ok(name),
        Err(error) => Err(joined("arch feature string is not UTF-8: ", error.as_str())),
    }
}

/// Reads the name of the machine's architecture.
///
/// # Errors
///
/// Returns an error when the feature table or the feature is malformed.
pub fn parse_header_arch(bytes: &[u8], header: &PerfHeader) -> (result: Result<
    Option<String>,
    String,
>)
    ensures
        match result {
            Ok(name) => header_arch_of(bytes@, *header) == Ok::<Option<Seq<char>>, Seq<char>>(
                text_view(name),
            ),
            Err(error) => header_arch_of(bytes@, *header) == Err::<Option<Seq<char>>, Seq<char>>(
                error@,
            ),
        },
{
    let total: usize = bytes.len();
    let sections = parse_feature_sections(bytes, header)?;
    let section = match find_section(&sections, HEADER_ARCH_FEATURE) {
        Some(section) => section,
        None => return Ok(None),
    };
    match (size_from_u64(section.offset), size_from_u64(section.size)) {
        (Some(offset), Some(size)) => if offset <= total && size <= total - offset {
            let name = parse_arch_name(slice_subrange(bytes, offset, offset + size))?;
            return Ok(Some(name));
        },
        _ => {},
    }
    Err("arch feature payload extends past end of file".to_string())
}

/// The architecture that a file states; `x86_64` where it states none or an unknown one.
pub open spec fn arch_from(name: Option<Seq<char>>) -> PerfArch {
    match name {
        Some(name) => match arch_named(name) {
            Some(arch) => arch,
            None => PerfArch::X86_64,
        },
        None => PerfArch::X86_64,
    }
}

/// The architecture that a file states.
#[must_use]
pub fn perf_arch_from_header(arch: &Option<String>) -> (found: PerfArch)
    ensures
        found == arch_from(text_view(*arch)),
{
    match arch {
        Some(name) => match PerfArch::from_header_arch(name.as_str()) {
            Some(arch) => arch,
            None => PerfArch::X86_64,
        },
        None => PerfArch::X86_64,
    }
}

// ---------------------------------------------------------------------------
// Build ids
// ---------------------------------------------------------------------------

/// What a hexadecimal digit stands for.
pub open spec fn hex_value(c: char) -> Option<nat> {
    if '0' <= c <= '9' {
        Some((c as nat - 48) as nat)
    } else if 'a' <= c <= 'f' {
        Some((c as nat - 87) as nat)
    } else if 'A' <= c <= 'F' {
        Some((c as nat - 55) as nat)
    } else {
        None
    }
}

fn hex_digit_value(c: char) -> (value: Option<u8>)
    ensures
        match value {
            Some(value) => hex_value(c) == Some(value as nat) && value < 16,
            None => hex_value(c) is None,
        },
{
    if '0' <= c && c <= '9' {
        Some((c as u8) - 48)
    } else if 'a' <= c && c <= 'f' {
        Some((c as u8) - 87)
    } else if 'A' <= c && c <= 'F' {
        Some((c as u8) - 55)
    } else {
        None
    }
}

/// The byte that two characters stand for: two digits, or a plus sign and a digit.
pub open spec fn hex_byte(chars: Seq<char>, at: int) -> Option<u8> {
    if at + 2 > chars.len() {
        None
    } else {
        match (hex_value(chars[at]), hex_value(chars[at + 1])) {
            (Some(high), Some(low)) => Some((16 * high + low) as u8),
            (None, Some(low)) => if chars[at] == '+' {
                Some(low as u8)
            } else {
                None
            },
            _ => None,
        }
    }
}

/// The bytes that hexadecimal digits from position `at` on stand for.
pub open spec fn hex_bytes_from(chars: Seq<char>, at: int) -> Result<Seq<u8>, Seq<char>>
    decreases chars.len() - at,
{
    if at >= chars.len() {
        Ok(Seq::empty())
    } else {
        match hex_byte(chars, at) {
            None => Err(
                "build-id hex is invalid at offset "@ + decimal(at as nat)
                    + ": invalid digit found in string"@,
            ),
            Some(byte) => match hex_bytes_from(chars, at + 2) {
                Err(error) => Err(error),
                Ok(rest) => Ok(seq![byte] + rest),
            },
        }
    }
}

/// The bytes that a hexadecimal text stands for.
pub open spec fn hex_bytes_of(text: Seq<char>) -> Result<Seq<u8>, Seq<char>> {
    let len = encode_utf8(text).len();
    if len % 2 != 0 {
        Err("build-id hex has odd length: "@ + decimal(len))
    } else {
        hex_bytes_from(text, 0)
    }
}

/// Reads the bytes that a hexadecimal text stands for.
///
/// # Errors
///
/// Returns an error when the text has an odd length or a character that is no digit.
pub fn hex_build_id_bytes(hex: &str) -> (result: Result<Vec<u8>, String>)
    ensures
        crate::text::outcome(result) == hex_bytes_of(hex@),
{
    let len: usize = hex.as_bytes().len();
    if len % 2 != 0 {
        let message = number_message("build-id hex has odd length: ", len as u64, "");
        proof {
            reveal_strlit("");
            assert(message@ =~= "build-id hex has odd length: "@ + decimal(len as nat));
        }
        return Err(message);
    }
    let chars = chars_of(hex);
    let mut bytes: Vec<u8> = Vec::new();
    let mut at: usize = 0;
    proof {
        if let Ok(all) = hex_bytes_from(chars@, 0) {
            assert(bytes@ + all =~= all);
        }
    }
    while at < chars.len()
        invariant
            chars@ == hex@,
            hex_bytes_of(hex@) == hex_bytes_from(chars@, 0),
            hex_bytes_from(chars@, 0) == match hex_bytes_from(chars@, at as int) {
                Err(error) => Err::<Seq<u8>, Seq<char>>(error),
                Ok(rest) => Ok(bytes@ + rest),
            },
        decreases chars@.len() - at,
    {
        let byte: Option<u8> = if chars.len() - at < 2 {
            None
        } else {
            match (hex_digit_value(chars[at]), hex_digit_value(chars[at + 1])) {
                (Some(high), Some(low)) => Some(16 * high + low),
                (None, Some(low)) => if chars[at] == '+' {
                    Some(low)
                } else {
                    None
                },
                _ => None,
            }
        };
        assert(byte == hex_byte(chars@, at as int));
        match byte {
            Some(byte) => {
                let ghost before = bytes@;
                bytes.push(byte);
                at += 2;
                proof {
                    if let Ok(rest) = hex_bytes_from(chars@, at as int) {
                        assert(before + (seq![byte] + rest) =~= bytes@ + rest);
                    }
                }
            },
            None => {
                return Err(
                    number_message(
                        "build-id hex is invalid at offset ",
                        at as u64,
                        ": invalid digit found in string",
                    ),
                );
            },
        }
    }
    assert(bytes@ + Seq::<u8>::empty() =~= bytes@);
    Ok(bytes)
}

/// The build ids of the first `count` events by file name; a later event takes a name over.
pub open spec fn build_ids_by_name(events: Seq<BuildIdModel>, count: int) -> Result<
    Map<Seq<char>, Seq<u8>>,
    Seq<char>,
>
    decreases count,
{
    if count <= 0 {
        Ok(Map::empty())
    } else {
        match build_ids_by_name(events, count - 1) {
            Err(error) => Err(error),
            Ok(before) => match hex_bytes_of(events[count - 1].build_id) {
                Err(error) => Err(error),
                Ok(bytes) => Ok(before.insert(events[count - 1].filename, bytes)),
            },
        }
    }
}

/// The build ids of a file by file name: those of its feature section, then those of its
/// records.
pub open spec fn file_build_ids_of(bytes: Seq<u8>) -> Result<
    Map<Seq<char>, Seq<u8>>,
    Seq<char>,
> {
    match build_id_events_of(bytes) {
        Err(error) => Err(error),
        Ok(events) => build_ids_by_name(events, events.len() as int),
    }
}

proof fn build_ids_error(events: Seq<BuildIdModel>, count: int, total: int)
    requires
        0 <= count <= total,
        build_ids_by_name(events, count) is Err,
    ensures
        build_ids_by_name(events, total) == build_ids_by_name(events, count),
    decreases total - count,
{
    if count < total {
        assert(build_ids_by_name(events, count + 1) == build_ids_by_name(events, count));
        build_ids_error(events, count + 1, total);
    }
}

/// Gathers the build ids of events by file name; a later event takes a name over.
///
/// # Errors
///
/// Returns an error when the text of a build id is not made of hexadecimal digits.
pub fn collect_build_ids(events: &Vec<BuildIdEvent>) -> (result: Result<NamedBytes, String>)
    ensures
        crate::text::outcome(result) == build_ids_by_name(
            views(events@),
            events@.len() as int,
        ),
        result matches Ok(table) ==> table.wf(),
{
    let ghost all = views(events@);
    let mut table = NamedBytes::new();
    let mut index: usize = 0;
    while index < events.len()
        invariant
            index <= events@.len(),
            all == views(events@),
            table.wf(),
            build_ids_by_name(all, index as int) == Ok::<Map<Seq<char>, Seq<u8>>, Seq<char>>(
                table@,
            ),
        decreases events@.len() - index,
    {
        assert(all[index as int] == events@[index as int]@);
        match hex_build_id_bytes(events[index].build_id.as_str()) {
            Ok(build_id) => table.insert(events[index].filename.as_str(), build_id),
            Err(error) => {
                proof {
                    build_ids_error(all, index + 1, all.len() as int);
                }
                return Err(error);
            },
        }
        index += 1;
    }
    Ok(table)
}

/// Reads the build ids of a file by file name.
///
/// # Errors
///
/// Returns an error when the build ids of the file cannot be read.
pub fn header_build_ids_by_filename(bytes: &[u8]) -> (result: Result<NamedBytes, String>)
    ensures
        crate::text::outcome(result) == file_build_ids_of(bytes@),
        result matches Ok(table) ==> table.wf(),
{
    let events = build_id_events_from_perfdata(bytes)?;
    collect_build_ids(&events)
}

/// Hexadecimal text gives back the bytes that it was made of.
pub proof fn hex_text_is_invertible(bytes: Seq<u8>)
    ensures
        hex_bytes_of(hex_text(bytes)) == Ok::<Seq<u8>, Seq<char>>(bytes),
{
    hex_text_digits(bytes);
    let text = hex_text(bytes);
    assert(is_ascii_chars(text));
    is_ascii_chars_encode_utf8(text);
    hex_bytes_from_text(bytes, 0);
    assert(bytes.subrange(0, bytes.len() as int) =~= bytes);
}

/// Each byte gives two digits.
proof fn hex_text_digits(bytes: Seq<u8>)
    ensures
        hex_text(bytes).len() == 2 * bytes.len(),
        forall|i: int|
            0 <= i < bytes.len() ==> hex_byte(hex_text(bytes), 2 * i) == Some(#[trigger] bytes[i]),
        is_ascii_chars(hex_text(bytes)),
    decreases bytes.len(),
{
    if bytes.len() > 0 {
        let front = bytes.drop_last();
        hex_text_digits(front);
        let last = bytes.last();
        let digits = hexadecimal(last as nat, 2);
        two_digits(last);
        let text = hex_text(bytes);
        assert forall|i: int| 0 <= i < bytes.len() implies hex_byte(text, 2 * i) == Some(
            #[trigger] bytes[i],
        ) by {
            if i < front.len() {
                assert(front[i] == bytes[i]);
                assert(text[2 * i] == hex_text(front)[2 * i]);
                assert(text[2 * i + 1] == hex_text(front)[2 * i + 1]);
            } else {
                assert(text[2 * i] == digits[0]);
                assert(text[2 * i + 1] == digits[1]);
            }
        }
        assert forall|i: int| 0 <= i < text.len() implies (#[trigger] text[i] as nat) < 128 by {
            if i < 2 * front.len() {
                assert(text[i] == hex_text(front)[i]);
            } else {
                assert(text[i] == digits[i - 2 * front.len()]);
            }
        }
    }
}

proof fn two_digits(byte: u8)
    ensures
        hexadecimal(byte as nat, 2).len() == 2,
        hex_byte(hexadecimal(byte as nat, 2), 0) == Some(byte),
        (hexadecimal(byte as nat, 2)[0] as nat) < 128,
        (hexadecimal(byte as nat, 2)[1] as nat) < 128,
{
    reveal_with_fuel(hexadecimal, 3);
    let n = byte as nat;
    assert(hexadecimal(n, 2) =~= seq![digit_char(n / 16), digit_char(n % 16)]);
}

/// The texts' digits from a position on give back the bytes from there on.
proof fn hex_bytes_from_text(bytes: Seq<u8>, from: int)
    requires
        0 <= from <= bytes.len(),
    ensures
        hex_bytes_from(hex_text(bytes), 2 * from) == Ok::<Seq<u8>, Seq<char>>(
            bytes.subrange(from, bytes.len() as int),
        ),
    decreases bytes.len() - from,
{
    hex_text_digits(bytes);
    if from == bytes.len() {
        assert(bytes.subrange(from, bytes.len() as int) =~= Seq::empty());
    } else {
        hex_bytes_from_text(bytes, from + 1);
        assert(bytes[from] == bytes[from]);
        assert(hex_byte(hex_text(bytes), 2 * from) == Some(bytes[from]));
        assert(2 * (from + 1) == 2 * from + 2);
        assert(seq![bytes[from]] + bytes.subrange(from + 1, bytes.len() as int)
            =~= bytes.subrange(from, bytes.len() as int));
    }
}

// ---------------------------------------------------------------------------
// Laws
// ---------------------------------------------------------------------------

/// Of several build ids of one file the last one counts; where one of them cannot be read there
/// are none.
pub proof fn last_build_ids_count(events: Seq<BuildIdModel>, count: int, name: Seq<char>)
    requires
        0 <= count <= events.len(),
    ensures
        build_ids_by_name(events, count) is Ok <==> forall|i: int|
            0 <= i < count ==> hex_bytes_of((#[trigger] events[i]).build_id) is Ok,
        build_ids_by_name(events, count) matches Ok(ids) ==> (if ids.contains_key(name) {
            exists|at: int|
                0 <= at < count && (#[trigger] events[at]).filename == name && hex_bytes_of(
                    events[at].build_id,
                ) == Ok::<Seq<u8>, Seq<char>>(ids[name]) && forall|i: int|
                    at < i < count ==> (#[trigger] events[i]).filename != name
        } else {
            forall|i: int| 0 <= i < count ==> (#[trigger] events[i]).filename != name
        }),
    decreases count,
{
    if count > 0 {
        last_build_ids_count(events, count - 1, name);
        let event = events[count - 1];
        if let Ok(before) = build_ids_by_name(events, count - 1) {
            if let Ok(bytes) = hex_bytes_of(event.build_id) {
                let ids = before.insert(event.filename, bytes);
                if event.filename == name {
                    assert(events[count - 1].filename == name && hex_bytes_of(
                        events[count - 1].build_id,
                    ) == Ok::<Seq<u8>, Seq<char>>(ids[name]));
                } else if before.contains_key(name) {
                    let at = choose|at: int|
                        0 <= at < count - 1 && (#[trigger] events[at]).filename == name
                            && hex_bytes_of(events[at].build_id) == Ok::<Seq<u8>, Seq<char>>(
                            before[name],
                        ) && forall|i: int|
                            at < i < count - 1 ==> (#[trigger] events[i]).filename != name;
                    assert(events[at].filename == name && hex_bytes_of(events[at].build_id) == Ok::<
                        Seq<u8>,
                        Seq<char>,
                    >(ids[name]));
                }
            }
        }
        assert(events[count - 1] == event);
    }
}

} // verus!
