//! The summary that `heaptrack_print` prints.

use vstd::prelude::*;
use vstd::slice::slice_subrange;
use vstd::string::{StrSliceExecFns, StringExecFns};

use crate::text::{
    beginning_is_being_in_front, begins_with, decimal, decimal_is_read, find_text_start,
    find_word_end, is_blank, is_digit, is_space, lines_from, lines_of, only_space_is_trimmed,
    parse_number, push_decimal, starts_with, stated_number, stated_numbers_are_read, text_start,
    text_start_is_behind, trim, trimmed, views, word_end, words_end_at_space,
};

verus! {

/// How many allocations there were, and how much memory was in use at most.
#[derive(Clone, Copy, Debug, Eq, PartialEq)]
pub struct HeaptrackSummary {
    pub total_allocations: Option<u64>,
    pub peak_heap_bytes: Option<u64>,
}

/// The number that is the first word behind a prefix of a line.
pub open spec fn number_behind(line: Seq<char>, prefix: Seq<char>) -> Option<u64> {
    let text = trimmed(line);
    if begins_with(text, prefix) {
        let rest = text.subrange(prefix.len() as int, text.len() as int);
        let start = text_start(rest, 0);
        let end = word_end(rest, start);
        if start < end {
            stated_number(rest.subrange(start, end))
        } else {
            None
        }
    } else {
        None
    }
}

fn number_after_prefix(line: &[char], prefix: &str) -> (number: Option<u64>)
    ensures
        number == number_behind(line@, prefix@),
{
    let text = trim(line);
    if !starts_with(text, prefix) {
        return None;
    }
    let rest = slice_subrange(text, prefix.unicode_len(), text.len());
    let start: usize = find_text_start(rest, 0);
    let end: usize = find_word_end(rest, start);
    if start < end {
        parse_number(slice_subrange(rest, start, end))
    } else {
        None
    }
}

/// The number in the last of the first `count` lines that states one behind a prefix.
pub open spec fn last_number(lines: Seq<Seq<char>>, prefix: Seq<char>, count: int) -> Option<u64>
    decreases count,
{
    if count <= 0 {
        None
    } else {
        match number_behind(lines[count - 1], prefix) {
            Some(number) => Some(number),
            None => last_number(lines, prefix, count - 1),
        }
    }
}

/// Reads the summary.
#[must_use]
pub fn parse_heaptrack_summary(text: &str) -> (summary: HeaptrackSummary)
    ensures
        ({
            let lines = lines_from(text@, 0);
            &&& summary.total_allocations == last_number(
                lines,
                "total allocations:"@,
                lines.len() as int,
            )
            &&& summary.peak_heap_bytes == last_number(
                lines,
                "peak heap memory consumption:"@,
                lines.len() as int,
            )
        }),
{
    let mut summary = HeaptrackSummary { total_allocations: None, peak_heap_bytes: None };
    let lines = lines_of(text);
    let ghost all = views(lines@);
    let mut index: usize = 0;
    while index < lines.len()
        invariant
            index <= lines@.len(),
            all == views(lines@),
            summary.total_allocations == last_number(all, "total allocations:"@, index as int),
            summary.peak_heap_bytes == last_number(
                all,
                "peak heap memory consumption:"@,
                index as int,
            ),
        decreases lines@.len() - index,
    {
        let line = lines[index].as_slice();
        assert(all[index as int] == line@);
        if let Some(value) = number_after_prefix(line, "total allocations:") {
            summary.total_allocations = Some(value);
        }
        if let Some(value) = number_after_prefix(line, "peak heap memory consumption:") {
            summary.peak_heap_bytes = Some(value);
        }
        index += 1;
    }
    summary
}

/// A number, or that it is unknown.
pub open spec fn number_text(value: Option<u64>) -> Seq<char> {
    match value {
        Some(value) => decimal(value as nat),
        None => "unknown"@,
    }
}

fn push_number(text: &mut String, value: Option<u64>)
    ensures
        final(text)@ == old(text)@ + number_text(value),
{
    match value {
        Some(value) => push_decimal(text, value as u128),
        None => text.append("unknown"),
    }
}

/// The text of a summary.
#[must_use]
pub fn render_heaptrack_summary_text(summary: &HeaptrackSummary) -> (text: String)
    ensures
        text@ == "total allocations: "@ + number_text(summary.total_allocations)
            + "\npeak heap bytes: "@ + number_text(summary.peak_heap_bytes) + "\n"@,
{
    let mut text = "total allocations: ".to_string();
    push_number(&mut text, summary.total_allocations);
    text.append("\npeak heap bytes: ");
    push_number(&mut text, summary.peak_heap_bytes);
    text.append("\n");
    text
}

// ---------------------------------------------------------------------------
// Laws
// ---------------------------------------------------------------------------

/// The number of a line is the first word behind the prefix, whatever follows that word; blanks
/// around the line and in front of the word do not matter.
pub proof fn numbers_behind_prefixes_are_read(
    left: Seq<char>,
    prefix: Seq<char>,
    blanks: Seq<char>,
    number: u64,
    rest: Seq<char>,
    right: Seq<char>,
)
    requires
        is_blank(left),
        prefix.len() > 0,
        !is_space(prefix[0]),
        is_blank(blanks),
        rest.len() > 0 ==> is_space(rest[0]) && !is_space(rest.last()),
        is_blank(right),
    ensures
        number_behind(
            left + (prefix + blanks + decimal(number as nat) + rest) + right,
            prefix,
        ) == Some(number),
{
    let digits = decimal(number as nat);
    let text = prefix + blanks + digits + rest;
    decimal_is_read(number as nat);
    assert forall|i: int| 0 <= i < digits.len() implies !is_space(#[trigger] digits[i]) by {
        assert(is_digit(digits[i]));
    }
    assert(text[0] == prefix[0]);
    if rest.len() > 0 {
        assert(text.last() == rest.last());
    } else {
        assert(text.last() == digits.last());
    }
    only_space_is_trimmed(left, text, right);
    let behind = blanks + digits + rest;
    assert(text =~= prefix + behind);
    beginning_is_being_in_front(text, prefix);
    assert(text.subrange(prefix.len() as int, text.len() as int) =~= behind);
    let start = blanks.len() as int;
    let end = start + digits.len();
    assert(behind[start] == digits[0]);
    text_start_is_behind(behind, 0, start);
    assert forall|i: int| start <= i < end implies !is_space(#[trigger] behind[i]) by {
        assert(behind[i] == digits[i - start]);
    }
    if rest.len() > 0 {
        assert(behind[end] == rest[0]);
    }
    words_end_at_space(behind, start, end);
    assert(behind.subrange(start, end) =~= digits);
    stated_numbers_are_read(number);
}

/// Of several lines that state a number behind a prefix the last one counts.
pub proof fn last_stated_number_counts(lines: Seq<Seq<char>>, prefix: Seq<char>, count: int)
    requires
        0 <= count <= lines.len(),
    ensures
        match last_number(lines, prefix, count) {
            Some(number) => exists|at: int|
                0 <= at < count && #[trigger] number_behind(lines[at], prefix) == Some(number)
                    && forall|i: int|
                    at < i < count ==> (#[trigger] number_behind(lines[i], prefix)) is None,
            None => forall|i: int|
                0 <= i < count ==> (#[trigger] number_behind(lines[i], prefix)) is None,
        },
    decreases count,
{
    if count > 0 {
        if number_behind(lines[count - 1], prefix) is None {
            last_stated_number_counts(lines, prefix, count - 1);
            if last_number(lines, prefix, count - 1) is Some {
                let at = choose|at: int|
                    0 <= at < count - 1 && #[trigger] number_behind(lines[at], prefix)
                        == last_number(lines, prefix, count - 1) && forall|i: int|
                        at < i < count - 1 ==> (#[trigger] number_behind(lines[i], prefix)) is None;
                assert(number_behind(lines[at], prefix) == last_number(lines, prefix, count));
            }
        }
    }
}

} // verus!
