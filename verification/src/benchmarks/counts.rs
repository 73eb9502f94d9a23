//! The counts of folded stacks, compared as a whole.

use vstd::prelude::*;
use vstd::utf8::encode_utf8;

use crate::benchmarks::comparison::{
    entry_of, read_folded_entry, stack_before, stack_in_order,
};
use crate::benchmarks::{tool_error_text, tool_output, ComparisonModel, FoldComparisonReport};
use crate::flamegraph::{build_inferno_flamegraph_command, flamegraph_command};
use crate::folded::folded_line;
use crate::process::{CommandModel, CommandOutput, CommandSpec};
use crate::sorting::{bytes_order, bytes_transitive, same_bytes};
use crate::summary::threads::{CountedStack, TopFoldedStack};
use crate::text::{
    decimal, is_blank, lines_from, lines_of, outcome, push_decimal, same_text, text_from_utf8_lossy,
    text_of, trim, trimmed, utf8_lossy, views, white_space_is_trimmed_away,
};

verus! {

broadcast use vstd::string::group_string_axioms;

/// Stacks in order, each once, with their counts.
#[derive(Clone, Debug, Eq, PartialEq)]
pub struct FoldedCounts {
    pub entries: Vec<TopFoldedStack>,
}

/// Whether stacks stand in order, each once.
pub open spec fn in_stack_order(entries: Seq<CountedStack>) -> bool {
    forall|i: int, j: int|
        #![trigger entries[i], entries[j]]
        0 <= i < j < entries.len() ==> stack_before(entries[i].0, entries[j].0)
}

/// Whether a stack stands at an index.
pub open spec fn stack_at(entries: Seq<CountedStack>, stack: Seq<char>, at: int) -> bool {
    0 <= at < entries.len() && entries[at].0 == stack
}

/// The counts by their stacks.
pub open spec fn counts_of(entries: Seq<CountedStack>) -> Map<Seq<char>, u64> {
    Map::new(
        |stack: Seq<char>| exists|i: int| stack_at(entries, stack, i),
        |stack: Seq<char>| entries[choose|i: int| stack_at(entries, stack, i)].1,
    )
}

impl View for FoldedCounts {
    type V = Map<Seq<char>, u64>;

    open spec fn view(&self) -> Map<Seq<char>, u64> {
        counts_of(views(self.entries@))
    }
}

/// The count of a stack, zero where it has none.
pub open spec fn count_in(counts: Map<Seq<char>, u64>, stack: Seq<char>) -> u64 {
    if counts.contains_key(stack) {
        counts[stack]
    } else {
        0
    }
}

/// Two numbers together, up to the largest number.
pub open spec fn capped_sum(left: u64, right: u64) -> u64 {
    if left + right > u64::MAX {
        u64::MAX
    } else {
        (left + right) as u64
    }
}

/// Counts with one more line.
pub open spec fn with_stack(
    counts: Map<Seq<char>, u64>,
    stack: Seq<char>,
    count: u64,
) -> Map<Seq<char>, u64> {
    counts.insert(stack, capped_sum(count_in(counts, stack), count))
}

/// A stack stands at one index only.
proof fn stack_stands_once(entries: Seq<CountedStack>, stack: Seq<char>, at: int)
    requires
        in_stack_order(entries),
        stack_at(entries, stack, at),
    ensures
        counts_of(entries).contains_key(stack),
        counts_of(entries)[stack] == entries[at].1,
{
    let other = choose|i: int| stack_at(entries, stack, i);
    if other < at {
        assert(stack_before(entries[other].0, entries[at].0));
    } else if at < other {
        assert(stack_before(entries[at].0, entries[other].0));
    }
}

/// A stack that comes before one and not after another does not follow it.
proof fn before_is_transitive(a: Seq<char>, b: Seq<char>, c: Seq<char>)
    requires
        stack_before(a, b),
        stack_before(b, c),
    ensures
        stack_before(a, c),
{
    bytes_transitive(encode_utf8(a), encode_utf8(b), encode_utf8(c));
    if a == c {
        bytes_order(encode_utf8(a), encode_utf8(b));
        same_encoding(a, b);
    }
}

/// Only equal texts are encoded in the same way.
proof fn same_encoding(left: Seq<char>, right: Seq<char>)
    requires
        encode_utf8(left) == encode_utf8(right),
    ensures
        left == right,
{
    vstd::utf8::encode_utf8_decode_utf8(left);
    vstd::utf8::encode_utf8_decode_utf8(right);
}

impl FoldedCounts {
    /// Whether the stacks stand in order, each once.
    pub open spec fn wf(&self) -> bool {
        in_stack_order(views(self.entries@))
    }

    /// No counts.
    #[must_use]
    pub fn new() -> (counts: FoldedCounts)
        ensures
            counts.wf(),
            counts@ == Map::<Seq<char>, u64>::empty(),
    {
        let counts = FoldedCounts { entries: Vec::new() };
        assert(counts@ =~= Map::empty());
        counts
    }

    /// The index of a stack, or where it would stand.
    fn find(&self, stack: &str) -> (at: usize)
        requires
            self.wf(),
        ensures
            at <= self.entries@.len(),
            forall|i: int| 0 <= i < at ==> stack_before((#[trigger] self.entries@[i]).stack@, stack@),
            forall|i: int|
                at <= i < self.entries@.len() ==> stack@ == (#[trigger] self.entries@[i]).stack@
                    || stack_before(stack@, self.entries@[i].stack@),
            forall|i: int|
                at < i < self.entries@.len() ==> stack_before(
                    stack@,
                    (#[trigger] self.entries@[i]).stack@,
                ),
    {
        let mut at: usize = 0;
        while at < self.entries.len()
            invariant
                self.wf(),
                at <= self.entries@.len(),
                forall|i: int|
                    0 <= i < at ==> stack_before((#[trigger] self.entries@[i]).stack@, stack@),
            decreases self.entries@.len() - at,
        {
            let ghost all = views(self.entries@);
            if same_text(self.entries[at].stack.as_str(), stack) || !stack_in_order(
                self.entries[at].stack.as_str(),
                stack,
            ) {
                proof {
                    let here = self.entries@[at as int].stack@;
                    bytes_order(encode_utf8(here), encode_utf8(stack@));
                    assert forall|i: int| at < i < self.entries@.len() implies stack_before(
                        stack@,
                        (#[trigger] self.entries@[i]).stack@,
                    ) by {
                        assert(stack_before(all[at as int].0, all[i].0));
                        if here != stack@ {
                            before_is_transitive(stack@, here, self.entries@[i].stack@);
                        }
                    }
                }
                return at;
            }
            at += 1;
        }
        at
    }

    /// The count of a stack, zero where it has none.
    #[must_use]
    pub fn get(&self, stack: &str) -> (count: u64)
        requires
            self.wf(),
        ensures
            count == count_in(self@, stack@),
    {
        let at: usize = self.find(stack);
        let ghost all = views(self.entries@);
        if at < self.entries.len() && same_text(self.entries[at].stack.as_str(), stack) {
            proof {
                assert(stack_at(all, stack@, at as int));
                stack_stands_once(all, stack@, at as int);
            }
            self.entries[at].count
        } else {
            proof {
                if self@.contains_key(stack@) {
                    let i = choose|i: int| stack_at(all, stack@, i);
                    assert(all[i].0 == self.entries@[i].stack@);
                }
            }
            0
        }
    }

    /// Adds the count of a line to those of its stack, up to the largest number.
    pub fn add(&mut self, stack: String, count: u64)
        requires
            old(self).wf(),
        ensures
            final(self).wf(),
            final(self)@ == with_stack(old(self)@, stack@, count),
    {
        let at: usize = self.find(stack.as_str());
        let ghost before = views(self.entries@);
        let ghost name = stack@;
        if at < self.entries.len() && same_text(
            self.entries[at].stack.as_str(),
            stack.as_str(),
        ) {
            let sum: u64 = self.entries[at].count.saturating_add(count);
            self.entries[at].count = sum;
            proof {
                let now = views(self.entries@);
                assert(now =~= before.update(at as int, (name, sum)));
                assert(stack_at(before, name, at as int));
                stack_stands_once(before, name, at as int);
                updated_counts(before, now, name, sum, at as int);
            }
        } else {
            proof {
                if self@.contains_key(name) {
                    let i = choose|i: int| stack_at(before, name, i);
                    assert(before[i].0 == self.entries@[i].stack@);
                }
                assert forall|i: int| at <= i < before.len() implies stack_before(
                    name,
                    (#[trigger] before[i]).0,
                ) by {
                    assert(before[i].0 == self.entries@[i].stack@);
                }
                assert forall|i: int| 0 <= i < at implies stack_before(
                    (#[trigger] before[i]).0,
                    name,
                ) by {
                    assert(before[i].0 == self.entries@[i].stack@);
                }
            }
            self.entries.insert(at, TopFoldedStack { stack, count });
            proof {
                let now = views(self.entries@);
                assert(now =~= before.insert(at as int, (name, count)));
                inserted_counts(before, name, count, at as int);
            }
        }
    }
}

proof fn updated_counts(
    before: Seq<CountedStack>,
    now: Seq<CountedStack>,
    stack: Seq<char>,
    count: u64,
    at: int,
)
    requires
        in_stack_order(before),
        stack_at(before, stack, at),
        now == before.update(at, (stack, count)),
    ensures
        in_stack_order(now),
        counts_of(now) == counts_of(before).insert(stack, count),
{
    assert forall|i: int, j: int|
        #![trigger now[i], now[j]]
        0 <= i < j < now.len() implies stack_before(now[i].0, now[j].0) by {
        assert(stack_before(before[i].0, before[j].0));
    }
    let wanted = counts_of(before).insert(stack, count);
    assert forall|other: Seq<char>| #[trigger]
        counts_of(now).contains_key(other) == wanted.contains_key(other) by {
        if counts_of(now).contains_key(other) {
            let i = choose|i: int| stack_at(now, other, i);
            assert(stack_at(before, other, i));
        }
        if wanted.contains_key(other) {
            if other == stack {
                assert(stack_at(now, other, at));
            } else {
                let i = choose|i: int| stack_at(before, other, i);
                assert(stack_at(now, other, i));
            }
        }
    }
    assert forall|other: Seq<char>| #[trigger]
        counts_of(now).contains_key(other) implies counts_of(now)[other] == wanted[other] by {
        let i = choose|i: int| stack_at(now, other, i);
        stack_stands_once(now, other, i);
        if other == stack {
            assert(stack_at(now, other, at));
            stack_stands_once(now, other, at);
        } else {
            assert(stack_at(before, other, i));
            stack_stands_once(before, other, i);
        }
    }
    assert(counts_of(now) =~= wanted);
}

proof fn inserted_counts(before: Seq<CountedStack>, stack: Seq<char>, count: u64, at: int)
    requires
        in_stack_order(before),
        0 <= at <= before.len(),
        forall|i: int| 0 <= i < at ==> stack_before((#[trigger] before[i]).0, stack),
        forall|i: int| at <= i < before.len() ==> stack_before(stack, (#[trigger] before[i]).0),
    ensures
        in_stack_order(before.insert(at, (stack, count))),
        counts_of(before.insert(at, (stack, count))) == counts_of(before).insert(stack, count),
        !counts_of(before).contains_key(stack),
{
    let now = before.insert(at, (stack, count));
    assert forall|i: int, j: int|
        #![trigger now[i], now[j]]
        0 <= i < j < now.len() implies stack_before(now[i].0, now[j].0) by {
        let old_i = if i < at {
            i
        } else {
            i - 1
        };
        let old_j = if j < at {
            j
        } else {
            j - 1
        };
        if i == at {
            assert(now[j] == before[old_j]);
        } else if j == at {
            assert(now[i] == before[old_i]);
        } else {
            assert(now[i] == before[old_i]);
            assert(now[j] == before[old_j]);
        }
    }
    let wanted = counts_of(before).insert(stack, count);
    assert(stack_at(now, stack, at));
    stack_stands_once(now, stack, at);
    assert forall|i: int| 0 <= i < before.len() implies #[trigger] before[i] == now[if i < at {
        i
    } else {
        i + 1
    }] by {}
    assert forall|other: Seq<char>| #[trigger]
        counts_of(now).contains_key(other) == wanted.contains_key(other) by {
        if counts_of(now).contains_key(other) && other != stack {
            let i = choose|i: int| stack_at(now, other, i);
            assert(stack_at(
                before,
                other,
                if i < at {
                    i
                } else {
                    i - 1
                },
            ));
        }
        if wanted.contains_key(other) && other != stack {
            let i = choose|i: int| stack_at(before, other, i);
            assert(stack_at(
                now,
                other,
                if i < at {
                    i
                } else {
                    i + 1
                },
            ));
        }
    }
    assert forall|other: Seq<char>| #[trigger]
        counts_of(now).contains_key(other) implies counts_of(now)[other] == wanted[other] by {
        if other != stack {
            let i = choose|i: int| stack_at(now, other, i);
            let old_i = if i < at {
                i
            } else {
                i - 1
            };
            stack_stands_once(now, other, i);
            assert(stack_at(before, other, old_i));
            stack_stands_once(before, other, old_i);
        }
    }
    assert(counts_of(now) =~= wanted);
    if counts_of(before).contains_key(stack) {
        let i = choose|i: int| stack_at(before, stack, i);
        assert(before[i].0 == stack);
    }
}

/// The counts of the first `count` lines together; lines without text are passed over.
pub open spec fn counted_lines(lines: Seq<Seq<char>>, count: int) -> Result<
    Map<Seq<char>, u64>,
    Seq<char>,
>
    decreases count,
{
    if count <= 0 {
        Ok(Map::empty())
    } else {
        match counted_lines(lines, count - 1) {
            Err(error) => Err(error),
            Ok(counts) => if trimmed(lines[count - 1]).len() == 0 {
                Ok(counts)
            } else {
                match entry_of(lines[count - 1]) {
                    Err(error) => Err(error),
                    Ok(entry) => Ok(with_stack(counts, entry.stack, entry.count)),
                }
            },
        }
    }
}

/// The counts of folded stacks.
pub open spec fn folded_counts_of(folded: Seq<char>) -> Result<Map<Seq<char>, u64>, Seq<char>> {
    let lines = lines_from(folded, 0);
    counted_lines(lines, lines.len() as int)
}

/// An error stays.
proof fn error_stays(lines: Seq<Seq<char>>, count: int, total: int)
    requires
        count <= total,
        counted_lines(lines, count) is Err,
    ensures
        counted_lines(lines, total) == counted_lines(lines, count),
    decreases total - count,
{
    if count < total {
        error_stays(lines, count, total - 1);
    }
}

/// Reads the counts of folded stacks.
pub fn parse_folded_counts(folded: &str) -> (counts: Result<FoldedCounts, String>)
    ensures
        outcome(counts) == folded_counts_of(folded@),
        counts matches Ok(counts) ==> counts.wf(),
{
    let lines = lines_of(folded);
    let ghost all = views(lines@);
    let mut counts = FoldedCounts::new();
    let mut index: usize = 0;
    while index < lines.len()
        invariant
            index <= lines@.len(),
            all == views(lines@),
            all == lines_from(folded@, 0),
            counts.wf(),
            counted_lines(all, index as int) == Ok::<Map<Seq<char>, u64>, Seq<char>>(counts@),
        decreases lines@.len() - index,
    {
        assert(all[index as int] == lines@[index as int]@);
        if trim(lines[index].as_slice()).len() > 0 {
            let line = text_of(lines[index].as_slice());
            match read_folded_entry(line) {
                Ok(entry) => counts.add(entry.stack, entry.count),
                Err(error) => {
                    proof {
                        error_stays(all, index + 1, all.len() as int);
                    }
                    return Err(error);
                },
            }
        }
        index += 1;
    }
    Ok(counts)
}

// ---------------------------------------------------------------------------
// Differences
// ---------------------------------------------------------------------------

/// The lines of the first `count` stacks whose count is another in other counts.
pub open spec fn differing_lines(
    entries: Seq<CountedStack>,
    other: Map<Seq<char>, u64>,
    count: int,
) -> Seq<Seq<char>>
    decreases count,
{
    if count <= 0 {
        Seq::empty()
    } else {
        let rest = differing_lines(entries, other, count - 1);
        let (stack, number) = entries[count - 1];
        if count_in(other, stack) != number {
            rest.push(folded_line(stack, number))
        } else {
            rest
        }
    }
}

/// Lists the stacks whose count is another in other counts.
#[must_use]
pub fn folded_difference(left: &FoldedCounts, right: &FoldedCounts) -> (lines: Vec<String>)
    requires
        left.wf(),
        right.wf(),
    ensures
        views(lines@) == differing_lines(
            views(left.entries@),
            right@,
            left.entries@.len() as int,
        ),
{
    let ghost entries = views(left.entries@);
    let mut lines: Vec<String> = Vec::new();
    let mut index: usize = 0;
    assert(views(lines@) =~= Seq::empty());
    while index < left.entries.len()
        invariant
            index <= left.entries@.len(),
            right.wf(),
            entries == views(left.entries@),
            views(lines@) == differing_lines(entries, right@, index as int),
        decreases left.entries@.len() - index,
    {
        assert(entries[index as int] == left.entries@[index as int]@);
        let count: u64 = left.entries[index].count;
        if right.get(left.entries[index].stack.as_str()) != count {
            let ghost before = views(lines@);
            let mut line = left.entries[index].stack.clone();
            line.push(' ');
            push_decimal(&mut line, count as u128);
            assert(line@ =~= folded_line(entries[index as int].0, count));
            lines.push(line);
            assert(views(lines@) =~= before.push(line@));
        }
        index += 1;
    }
    lines
}

/// The command that renders folded stacks for a comparison.
#[must_use]
pub fn comparison_picture(folded: &str) -> (command: CommandSpec)
    ensures
        command@ == (CommandModel {
            stdin: Some(encode_utf8(folded@)),
            ..flamegraph_command("Pyroclast comparison"@)
        }),
{
    let bytes = vstd::slice::slice_to_vec(folded.as_bytes());
    build_inferno_flamegraph_command("Pyroclast comparison").stdin(bytes)
}

/// Compares the counts of two tools, and the pictures made of them.
#[must_use]
pub fn comparison_report(
    pyroclast: &FoldedCounts,
    inferno: &FoldedCounts,
    pyroclast_svg: &Vec<u8>,
    inferno_svg: &Vec<u8>,
) -> (report: FoldComparisonReport)
    requires
        pyroclast.wf(),
        inferno.wf(),
    ensures
        ({
            let left = views(pyroclast.entries@);
            let right = views(inferno.entries@);
            let only_left = differing_lines(left, inferno@, left.len() as int);
            let only_right = differing_lines(right, pyroclast@, right.len() as int);
            report@ == (ComparisonModel {
                pyroclast_folded_lines: left.len(),
                inferno_folded_lines: right.len(),
                matches: only_left.len() == 0 && only_right.len() == 0 && pyroclast_svg@
                    == inferno_svg@,
                svg_matches: pyroclast_svg@ == inferno_svg@,
                pyroclast_svg_bytes: pyroclast_svg@.len(),
                inferno_svg_bytes: inferno_svg@.len(),
                only_pyroclast: only_left,
                only_inferno: only_right,
            })
        }),
{
    let only_pyroclast = folded_difference(pyroclast, inferno);
    let only_inferno = folded_difference(inferno, pyroclast);
    let svg_matches = same_bytes(pyroclast_svg.as_slice(), inferno_svg.as_slice());
    FoldComparisonReport {
        pyroclast_folded_lines: pyroclast.entries.len(),
        inferno_folded_lines: inferno.entries.len(),
        matches: only_pyroclast.len() == 0 && only_inferno.len() == 0 && svg_matches,
        svg_matches,
        pyroclast_svg_bytes: pyroclast_svg.len(),
        inferno_svg_bytes: inferno_svg.len(),
        only_pyroclast,
        only_inferno,
    }
}

proof fn no_line_differs(entries: Seq<CountedStack>, other: Map<Seq<char>, u64>, count: int)
    requires
        0 <= count <= entries.len(),
    ensures
        differing_lines(entries, other, count).len() == 0 <==> (forall|i: int|
            0 <= i < count ==> count_in(other, (#[trigger] entries[i]).0) == entries[i].1),
    decreases count,
{
    if count > 0 {
        no_line_differs(entries, other, count - 1);
        assert(entries[count - 1].0 == entries[count - 1].0);
    }
}

/// Neither of two counts lists a difference just where every stack has the same count in both; a
/// stack that is not there counts as zero.
pub proof fn equal_counts_do_not_differ(left: Seq<CountedStack>, right: Seq<CountedStack>)
    requires
        in_stack_order(left),
        in_stack_order(right),
    ensures
        differing_lines(left, counts_of(right), left.len() as int).len() == 0 && differing_lines(
            right,
            counts_of(left),
            right.len() as int,
        ).len() == 0 <==> (forall|stack: Seq<char>| #[trigger]
            count_in(counts_of(left), stack) == count_in(counts_of(right), stack)),
{
    no_line_differs(left, counts_of(right), left.len() as int);
    no_line_differs(right, counts_of(left), right.len() as int);
    assert forall|i: int| 0 <= i < left.len() implies count_in(
        counts_of(left),
        (#[trigger] left[i]).0,
    ) == left[i].1 by {
        assert(stack_at(left, left[i].0, i));
        stack_stands_once(left, left[i].0, i);
    }
    assert forall|i: int| 0 <= i < right.len() implies count_in(
        counts_of(right),
        (#[trigger] right[i]).0,
    ) == right[i].1 by {
        assert(stack_at(right, right[i].0, i));
        stack_stands_once(right, right[i].0, i);
    }
    if (forall|i: int|
        0 <= i < left.len() ==> count_in(counts_of(right), (#[trigger] left[i]).0) == left[i].1)
        && (forall|i: int|
        0 <= i < right.len() ==> count_in(counts_of(left), (#[trigger] right[i]).0)
            == right[i].1) {
        assert forall|stack: Seq<char>| #[trigger]
            count_in(counts_of(left), stack) == count_in(counts_of(right), stack) by {
            if counts_of(left).contains_key(stack) {
                let i = choose|i: int| stack_at(left, stack, i);
                assert(left[i].0 == stack);
            } else if counts_of(right).contains_key(stack) {
                let i = choose|i: int| stack_at(right, stack, i);
                assert(right[i].0 == stack);
            }
        }
    }
}

/// Counts are listed in one way only.
pub proof fn listing_is_unique(left: Seq<CountedStack>, right: Seq<CountedStack>)
    requires
        in_stack_order(left),
        in_stack_order(right),
        counts_of(left) == counts_of(right),
    ensures
        left == right,
{
    listing_starts_alike(left, right, left.len() as int);
    listing_starts_alike(right, left, right.len() as int);
    assert(left =~= right);
}

proof fn listing_starts_alike(left: Seq<CountedStack>, right: Seq<CountedStack>, count: int)
    requires
        in_stack_order(left),
        in_stack_order(right),
        counts_of(left) == counts_of(right),
        0 <= count <= left.len(),
    ensures
        count <= right.len(),
        forall|i: int| 0 <= i < count ==> left[i] == right[i],
    decreases count,
{
    if count > 0 {
        let at = count - 1;
        listing_starts_alike(left, right, at);
        let stack = left[at].0;
        assert(stack_at(left, stack, at));
        stack_stands_once(left, stack, at);
        assert(counts_of(right).contains_key(stack));
        let there = choose|i: int| stack_at(right, stack, i);
        stack_stands_once(right, stack, there);
        if there < at {
            assert(left[there] == right[there]);
            assert(stack_before(left[there].0, left[at].0));
        } else if there > at {
            let other = right[at].0;
            assert(stack_before(other, stack));
            assert(stack_at(right, other, at));
            stack_stands_once(right, other, at);
            assert(counts_of(left).contains_key(other));
            let here = choose|i: int| stack_at(left, other, i);
            if here < at {
                assert(left[here] == right[here]);
                assert(stack_before(right[here].0, right[at].0));
            } else if here > at {
                assert(stack_before(left[at].0, left[here].0));
                before_is_transitive(stack, other, stack);
            }
        }
    }
}

/// Counts listed in order.
pub open spec fn listing_of(counts: Map<Seq<char>, u64>) -> Seq<CountedStack> {
    choose|entries: Seq<CountedStack>| in_stack_order(entries) && #[trigger] counts_of(entries)
        == counts
}

/// How the counts of two tools and the pictures made of them compare.
pub open spec fn counts_compared(
    pyroclast: Map<Seq<char>, u64>,
    inferno: Map<Seq<char>, u64>,
    pyroclast_svg: Seq<u8>,
    inferno_svg: Seq<u8>,
) -> ComparisonModel {
    let left = listing_of(pyroclast);
    let right = listing_of(inferno);
    let only_left = differing_lines(left, inferno, left.len() as int);
    let only_right = differing_lines(right, pyroclast, right.len() as int);
    ComparisonModel {
        pyroclast_folded_lines: left.len(),
        inferno_folded_lines: right.len(),
        matches: only_left.len() == 0 && only_right.len() == 0 && pyroclast_svg == inferno_svg,
        svg_matches: pyroclast_svg == inferno_svg,
        pyroclast_svg_bytes: pyroclast_svg.len(),
        inferno_svg_bytes: inferno_svg.len(),
        only_pyroclast: only_left,
        only_inferno: only_right,
    }
}

/// How folded stacks compare with what the other tool wrote, and the pictures of both; or the
/// first thing that went wrong.
pub open spec fn tools_compared(
    folded: Seq<char>,
    collapse: CommandOutput,
    pyroclast_picture: CommandOutput,
    inferno_picture: CommandOutput,
) -> Result<ComparisonModel, Seq<char>> {
    if !collapse.succeeded() {
        Err(tool_error_text("inferno-collapse-perf"@, collapse.status_code))
    } else {
        match (folded_counts_of(folded), folded_counts_of(utf8_lossy(collapse.stdout@))) {
            (Err(error), _) => Err(error),
            (_, Err(error)) => Err(error),
            (Ok(left), Ok(right)) => if !pyroclast_picture.succeeded() {
                Err(tool_error_text("inferno-flamegraph"@, pyroclast_picture.status_code))
            } else if !inferno_picture.succeeded() {
                Err(tool_error_text("inferno-flamegraph"@, inferno_picture.status_code))
            } else {
                Ok(
                    counts_compared(
                        left,
                        right,
                        pyroclast_picture.stdout@,
                        inferno_picture.stdout@,
                    ),
                )
            },
        }
    }
}

/// Compares folded stacks with what the other tool wrote, and the pictures of both.
pub fn compare_folded(
    folded: &str,
    collapse: CommandOutput,
    pyroclast_picture: CommandOutput,
    inferno_picture: CommandOutput,
) -> (report: Result<FoldComparisonReport, String>)
    ensures
        outcome(report) == tools_compared(folded@, collapse, pyroclast_picture, inferno_picture),
{
    let written = match tool_output("inferno-collapse-perf", collapse) {
        Ok(written) => written,
        Err(error) => return Err(error),
    };
    let other = text_from_utf8_lossy(written.as_slice());
    let pyroclast = match parse_folded_counts(folded) {
        Ok(counts) => counts,
        Err(error) => return Err(error),
    };
    let inferno = match parse_folded_counts(other.as_str()) {
        Ok(counts) => counts,
        Err(error) => return Err(error),
    };
    let pyroclast_svg = match tool_output("inferno-flamegraph", pyroclast_picture) {
        Ok(svg) => svg,
        Err(error) => return Err(error),
    };
    let inferno_svg = match tool_output("inferno-flamegraph", inferno_picture) {
        Ok(svg) => svg,
        Err(error) => return Err(error),
    };
    proof {
        let left = views(pyroclast.entries@);
        let right = views(inferno.entries@);
        assert(counts_of(left) == pyroclast@);
        assert(counts_of(right) == inferno@);
        listing_is_unique(left, listing_of(pyroclast@));
        listing_is_unique(right, listing_of(inferno@));
    }
    Ok(comparison_report(&pyroclast, &inferno, &pyroclast_svg, &inferno_svg))
}

// ---------------------------------------------------------------------------
// Laws
// ---------------------------------------------------------------------------

/// What the lines of a stack among the first `count` lines say together.
pub open spec fn said_of(lines: Seq<Seq<char>>, stack: Seq<char>, count: int) -> nat
    decreases count,
{
    if count <= 0 {
        0
    } else {
        said_of(lines, stack, count - 1) + (match entry_of(lines[count - 1]) {
            Ok(entry) => if entry.stack == stack && !is_blank(lines[count - 1]) {
                entry.count as nat
            } else {
                0
            },
            Err(_) => 0,
        })
    }
}

/// Lines are counted just where each line with text can be read. The count of a stack is what all
/// its lines say together, up to the largest count.
pub proof fn lines_of_a_stack_are_counted_together(lines: Seq<Seq<char>>, stack: Seq<char>)
    ensures
        counted_lines(lines, lines.len() as int) is Ok <==> forall|i: int|
            0 <= i < lines.len() && !is_blank(#[trigger] lines[i]) ==> entry_of(lines[i]) is Ok,
        counted_lines(lines, lines.len() as int) matches Ok(counts) ==> {
            let said = said_of(lines, stack, lines.len() as int);
            count_in(counts, stack) == if said > u64::MAX {
                u64::MAX as nat
            } else {
                said
            }
        },
{
    stacks_are_counted_up_to(lines, stack, lines.len() as int);
}

proof fn stacks_are_counted_up_to(lines: Seq<Seq<char>>, stack: Seq<char>, count: int)
    requires
        0 <= count <= lines.len(),
    ensures
        counted_lines(lines, count) is Ok <==> forall|i: int|
            0 <= i < count && !is_blank(#[trigger] lines[i]) ==> entry_of(lines[i]) is Ok,
        counted_lines(lines, count) matches Ok(counts) ==> {
            let said = said_of(lines, stack, count);
            count_in(counts, stack) == if said > u64::MAX {
                u64::MAX as nat
            } else {
                said
            }
        },
    decreases count,
{
    if count > 0 {
        stacks_are_counted_up_to(lines, stack, count - 1);
        white_space_is_trimmed_away(lines[count - 1]);
    }
}

/// The lines that differ are those of the stacks that have another count on the other side, in
/// their order.
pub proof fn differing_stacks_are_listed_in_order(
    entries: Seq<CountedStack>,
    other: Map<Seq<char>, u64>,
)
    ensures
        differing_lines(entries, other, entries.len() as int) == entries.filter(
            |entry: CountedStack|
                if other.contains_key(entry.0) {
                    other[entry.0] != entry.1
                } else {
                    entry.1 != 0
                },
        ).map_values(
            |entry: CountedStack| entry.0.push(' ') + decimal(entry.1 as nat),
        ),
{
    differing_stacks_are_listed(entries, other, entries.len() as int);
    assert(entries.take(entries.len() as int) =~= entries);
}

proof fn differing_stacks_are_listed(
    entries: Seq<CountedStack>,
    other: Map<Seq<char>, u64>,
    count: int,
)
    requires
        0 <= count <= entries.len(),
    ensures
        differing_lines(entries, other, count) == entries.take(count).filter(
            |entry: CountedStack|
                if other.contains_key(entry.0) {
                    other[entry.0] != entry.1
                } else {
                    entry.1 != 0
                },
        ).map_values(
            |entry: CountedStack| entry.0.push(' ') + decimal(entry.1 as nat),
        ),
    decreases count,
{
    reveal(Seq::filter);
    let differs = |entry: CountedStack|
        if other.contains_key(entry.0) {
            other[entry.0] != entry.1
        } else {
            entry.1 != 0
        };
    let shown = |entry: CountedStack| entry.0.push(' ') + decimal(entry.1 as nat);
    if count > 0 {
        differing_stacks_are_listed(entries, other, count - 1);
        assert(entries.take(count).drop_last() =~= entries.take(count - 1));
        let front = entries.take(count - 1).filter(differs);
        let last = entries[count - 1];
        assert(folded_line(last.0, last.1) =~= shown(last));
        assert(front.push(last).map_values(shown) =~= front.map_values(shown).push(shown(last)));
    } else {
        assert(entries.take(count) =~= Seq::empty());
        assert(differing_lines(entries, other, count) =~= entries.take(count).filter(
            differs,
        ).map_values(shown));
    }
}

} // verus!
