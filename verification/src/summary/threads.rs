//! Which stacks were counted most.

use vstd::prelude::*;
use vstd::slice::slice_subrange;
use vstd::string::StringExecFns;
use vstd::utf8::encode_utf8;

use crate::sorting::{
    bytes_in_order, bytes_le, bytes_order, bytes_transitive, sort, sorted, views_permute, Ranked,
};
use crate::text::{
    decimal, last_char, lines_from, lines_of, parse_number, push_decimal, rfind_char,
    stated_number, text_of, views,
};

verus! {

/// A stack with its count.
#[derive(Clone, Debug, Eq, PartialEq)]
pub struct TopFoldedStack {
    pub stack: String,
    pub count: u64,
}

/// How many lines and bytes folded stacks take, their count, and the stacks by their counts.
#[derive(Clone, Debug, Eq, PartialEq)]
pub struct FoldedStackSummary {
    pub folded_lines: usize,
    pub folded_bytes: usize,
    pub total_count: u64,
    pub top_stacks: Vec<TopFoldedStack>,
}

/// A stack with its count.
pub type CountedStack = (Seq<char>, u64);

impl View for TopFoldedStack {
    type V = CountedStack;

    open spec fn view(&self) -> CountedStack {
        (self.stack@, self.count)
    }
}

impl Ranked for TopFoldedStack {
    open spec fn before(&self, other: &Self) -> bool {
        self.count > other.count || (self.count == other.count && bytes_le(
            encode_utf8(self.stack@),
            encode_utf8(other.stack@),
        ))
    }

    fn in_order(&self, other: &Self) -> (ordered: bool) {
        self.count > other.count || (self.count == other.count && bytes_in_order(
            self.stack.as_str().as_bytes(),
            other.stack.as_str().as_bytes(),
        ))
    }

    proof fn order_is_total(left: &Self, right: &Self) {
        bytes_order(encode_utf8(left.stack@), encode_utf8(right.stack@));
    }

    proof fn order_is_transitive(a: &Self, b: &Self, c: &Self) {
        if a.count == b.count && b.count == c.count {
            bytes_transitive(encode_utf8(a.stack@), encode_utf8(b.stack@), encode_utf8(c.stack@));
        }
    }
}

/// The stack and the count of a folded line: what stands in front of and behind its last space,
/// where that is a number.
pub open spec fn folded_line_of(line: Seq<char>) -> Option<CountedStack> {
    match last_char(line, ' ', line.len() as int) {
        None => None,
        Some(space) => match stated_number(line.subrange(space + 1, line.len() as int)) {
            None => None,
            Some(count) => Some((line.subrange(0, space), count)),
        },
    }
}

/// The stacks of the first `count` lines.
pub open spec fn folded_stacks_of(lines: Seq<Seq<char>>, count: int) -> Seq<CountedStack>
    decreases count,
{
    if count <= 0 {
        Seq::empty()
    } else {
        match folded_line_of(lines[count - 1]) {
            None => folded_stacks_of(lines, count - 1),
            Some(stack) => folded_stacks_of(lines, count - 1).push(stack),
        }
    }
}

/// The counts of the first `count` stacks together, up to the largest number.
pub open spec fn count_sum(stacks: Seq<CountedStack>, count: int) -> u64
    decreases count,
{
    if count <= 0 {
        0
    } else {
        let sum = count_sum(stacks, count - 1) + stacks[count - 1].1;
        if sum > u64::MAX {
            u64::MAX
        } else {
            sum as u64
        }
    }
}

/// Reads the stack and the count of a folded line.
pub fn parse_folded_line(line: &Vec<char>) -> (stack: Option<TopFoldedStack>)
    ensures
        match stack {
            Some(stack) => folded_line_of(line@) == Some(stack@),
            None => folded_line_of(line@) is None,
        },
{
    let space: usize = match rfind_char(line.as_slice(), ' ') {
        Some(space) => space,
        None => return None,
    };
    match parse_number(slice_subrange(line.as_slice(), space + 1, line.len())) {
        Some(count) => Some(
            TopFoldedStack { stack: text_of(slice_subrange(line.as_slice(), 0, space)), count },
        ),
        None => None,
    }
}

/// Whether stacks are some others ordered by count, the largest first, and by name.
pub open spec fn ranks_stacks(ranked: Seq<TopFoldedStack>, stacks: Seq<CountedStack>) -> bool {
    &&& sorted(ranked)
    &&& views(ranked).to_multiset() == stacks.to_multiset()
}

/// Whether a summary is that of folded stacks.
pub open spec fn summarizes(summary: FoldedStackSummary, folded_stacks: Seq<char>) -> bool {
    let lines = lines_from(folded_stacks, 0);
    let stacks = folded_stacks_of(lines, lines.len() as int);
    &&& summary.folded_lines == lines.len()
    &&& summary.folded_bytes == encode_utf8(folded_stacks).len()
    &&& summary.total_count == count_sum(stacks, stacks.len() as int)
    &&& ranks_stacks(summary.top_stacks@, stacks)
}

/// Summarizes folded stacks. Lines without a count are only counted as lines.
#[must_use]
pub fn summarize_folded_stacks(folded_stacks: &str) -> (summary: FoldedStackSummary)
    ensures
        summarizes(summary, folded_stacks@),
{
    let lines = lines_of(folded_stacks);
    let mut stacks: Vec<TopFoldedStack> = Vec::new();
    let mut total_count: u64 = 0;
    let ghost all = views(lines@);
    let mut index: usize = 0;
    assert(views(stacks@) =~= Seq::empty());
    while index < lines.len()
        invariant
            index <= lines@.len(),
            all == views(lines@),
            views(stacks@) == folded_stacks_of(all, index as int),
            total_count == count_sum(views(stacks@), stacks@.len() as int),
        decreases lines@.len() - index,
    {
        assert(all[index as int] == lines@[index as int]@);
        if let Some(stack) = parse_folded_line(&lines[index]) {
            let ghost before = views(stacks@);
            total_count = total_count.saturating_add(stack.count);
            stacks.push(stack);
            proof {
                assert(views(stacks@) =~= before.push(stack@));
                count_sum_of_push(before, stack@, before.len() as int);
            }
        }
        index += 1;
    }
    let ghost unsorted = stacks@;
    let top_stacks = sort(stacks);
    proof {
        views_permute(top_stacks@, unsorted);
    }
    FoldedStackSummary {
        folded_lines: lines.len(),
        folded_bytes: folded_stacks.as_bytes().len(),
        total_count,
        top_stacks,
    }
}

proof fn count_sum_of_push(stacks: Seq<CountedStack>, stack: CountedStack, count: int)
    requires
        0 <= count <= stacks.len(),
    ensures
        count_sum(stacks.push(stack), count) == count_sum(stacks, count),
    decreases count,
{
    if count > 0 {
        count_sum_of_push(stacks, stack, count - 1);
    }
}

/// The text of a summary.
#[must_use]
pub fn render_folded_stack_summary_text(summary: &FoldedStackSummary) -> (text: String)
    ensures
        text@ == "folded lines: "@ + decimal(summary.folded_lines as nat) + "\nfolded bytes: "@
            + decimal(summary.folded_bytes as nat) + "\ntotal count: "@ + decimal(
            summary.total_count as nat,
        ) + "\n"@,
{
    let mut text = "folded lines: ".to_string();
    push_decimal(&mut text, summary.folded_lines as u128);
    text.append("\nfolded bytes: ");
    push_decimal(&mut text, summary.folded_bytes as u128);
    text.append("\ntotal count: ");
    push_decimal(&mut text, summary.total_count as u128);
    text.append("\n");
    text
}

/// A line made of a stack and a count gives them back, whatever the stack is.
pub proof fn folded_lines_are_readable(stack: Seq<char>, count: u64)
    ensures
        folded_line_of(crate::folded::folded_line(stack, count)) == Some((stack, count)),
{
    let line = crate::folded::folded_line(stack, count);
    let digits = decimal(count as nat);
    crate::text::decimal_is_read(count as nat);
    assert(line =~= stack + seq![' '] + digits);
    last_space(stack, digits, digits.len() as int);
    assert(line.subrange(0, stack.len() as int) =~= stack);
    assert(line.subrange(stack.len() as int + 1, line.len() as int) =~= digits);
    assert(digits[0] != '+');
}

proof fn last_space(stack: Seq<char>, digits: Seq<char>, count: int)
    requires
        0 <= count <= digits.len(),
        forall|i: int| 0 <= i < digits.len() ==> crate::text::is_digit(#[trigger] digits[i]),
    ensures
        last_char(stack + seq![' '] + digits, ' ', stack.len() as int + 1 + count) == Some(
            stack.len() as int,
        ),
    decreases count,
{
    let line = stack + seq![' '] + digits;
    if count > 0 {
        assert(line[stack.len() as int + count] == digits[count - 1]);
        last_space(stack, digits, count - 1);
    } else {
        assert(line[stack.len() as int] == ' ');
    }
}

// ---------------------------------------------------------------------------
// Laws
// ---------------------------------------------------------------------------

proof fn stacks_are_read_up_to(lines: Seq<Seq<char>>, count: int)
    requires
        0 <= count <= lines.len(),
    ensures
        folded_stacks_of(lines, count) == lines.take(count).filter_map(
            |line: Seq<char>| folded_line_of(line),
        ),
    decreases count,
{
    if count > 0 {
        stacks_are_read_up_to(lines, count - 1);
        assert(lines.take(count).drop_last() =~= lines.take(count - 1));
        assert(lines.take(count).last() == lines[count - 1]);
        if let Some(stack) = folded_line_of(lines[count - 1]) {
            assert(folded_stacks_of(lines, count - 1).push(stack) =~= folded_stacks_of(
                lines,
                count - 1,
            ) + seq![stack]);
        }
    }
}

/// The stacks of a text are those of its folded lines, in their order; other lines are passed
/// over.
pub proof fn folded_lines_are_all_read(lines: Seq<Seq<char>>)
    ensures
        folded_stacks_of(lines, lines.len() as int) == lines.filter_map(
            |line: Seq<char>| folded_line_of(line),
        ),
{
    stacks_are_read_up_to(lines, lines.len() as int);
    assert(lines.take(lines.len() as int) =~= lines);
}

/// The counts of stacks together.
pub open spec fn counts_together(stacks: Seq<CountedStack>) -> nat
    decreases stacks.len(),
{
    if stacks.len() == 0 {
        0
    } else {
        counts_together(stacks.drop_last()) + stacks.last().1 as nat
    }
}

proof fn counts_add_up_to(stacks: Seq<CountedStack>, count: int)
    requires
        0 <= count <= stacks.len(),
    ensures
        count_sum(stacks, count) == if counts_together(stacks.take(count)) > u64::MAX {
            u64::MAX as nat
        } else {
            counts_together(stacks.take(count))
        },
    decreases count,
{
    if count > 0 {
        counts_add_up_to(stacks, count - 1);
        assert(stacks.take(count).drop_last() =~= stacks.take(count - 1));
    }
}

/// The count of a summary is the sum of the counts of all stacks, as far as there are numbers for
/// it, whatever order they stand in.
pub proof fn counts_add_up(stacks: Seq<CountedStack>)
    ensures
        count_sum(stacks, stacks.len() as int) == if counts_together(stacks) > u64::MAX {
            u64::MAX as nat
        } else {
            counts_together(stacks)
        },
{
    counts_add_up_to(stacks, stacks.len() as int);
    assert(stacks.take(stacks.len() as int) =~= stacks);
}

/// Stacks are listed with the largest counts first, and all of them are.
pub proof fn largest_counts_come_first(
    ranked: Seq<TopFoldedStack>,
    stacks: Seq<CountedStack>,
    stack: CountedStack,
)
    requires
        ranks_stacks(ranked, stacks),
    ensures
        ranked.len() == stacks.len(),
        forall|i: int, j: int|
            #![trigger ranked[i], ranked[j]]
            0 <= i < j < ranked.len() ==> ranked[i].count >= ranked[j].count,
        views(ranked).contains(stack) <==> stacks.contains(stack),
{
    crate::sorting::same_items(views(ranked), stacks);
    assert forall|i: int, j: int|
        #![trigger ranked[i], ranked[j]]
        0 <= i < j < ranked.len() implies ranked[i].count >= ranked[j].count by {
        assert(ranked[i].before(&ranked[j]));
    }
}

} // verus!
