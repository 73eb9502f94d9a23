//! The system calls that `strace` prints.

use vstd::prelude::*;
use vstd::slice::slice_subrange;
use vstd::string::StringExecFns;

use crate::ranking::{group_by_name, groups_names, name_views, NameGroup};
use crate::text::{
    character_is_found_first, character_is_found_last, decimal, find_char, find_text_end,
    first_char, first_char_is_first, is_blank, is_free_of, is_space, is_space_char, is_word,
    last_char, last_char_is_last, lines_from, lines_of, push_decimal, rfind_char, text_end,
    text_end_is_in_front, text_of, views,
};

verus! {

/// A line with a duration: the name of the call, if the line holds one, and the duration as it
/// is printed.
#[derive(Clone, Debug, Eq, PartialEq)]
pub struct SyscallLine {
    pub syscall: Option<String>,
    pub duration: String,
}

/// The contents of a [`SyscallLine`].
#[verifier::ext_equal]
pub struct SyscallModel {
    pub syscall: Option<Seq<char>>,
    pub duration: Seq<char>,
}

impl View for SyscallLine {
    type V = SyscallModel;

    open spec fn view(&self) -> SyscallModel {
        SyscallModel {
            syscall: crate::text::text_view(self.syscall),
            duration: self.duration@,
        }
    }
}

/// The duration of a line: what stands between the last `<` and the next `>`.
pub open spec fn duration_of(line: Seq<char>) -> Option<Seq<char>> {
    match last_char(line, '<', line.len() as int) {
        None => None,
        Some(start) => {
            let end = first_char(line, '>', start);
            if end < line.len() {
                Some(line.subrange(start + 1, end))
            } else {
                None
            }
        },
    }
}

/// Where the word that ends at `end` begins.
pub open spec fn word_start(chars: Seq<char>, end: int) -> int
    decreases end,
{
    if end > 0 && !is_space(chars[end - 1]) {
        word_start(chars, end - 1)
    } else {
        end
    }
}

/// The name of a call: the last word in front of the first bracket.
pub open spec fn syscall_name_of(line: Seq<char>) -> Option<Seq<char>> {
    let open = first_char(line, '(', 0);
    if open >= line.len() {
        None
    } else {
        let text = line.subrange(0, open);
        let end = text_end(text, text.len() as int);
        let start = word_start(text, end);
        if start < end {
            Some(text.subrange(start, end))
        } else {
            None
        }
    }
}

fn parse_duration(line: &[char]) -> (duration: Option<String>)
    ensures
        crate::text::text_view(duration) == duration_of(line@),
{
    let start: usize = match rfind_char(line, '<') {
        Some(start) => start,
        None => return None,
    };
    let end: usize = find_char(line, '>', start);
    if end < line.len() {
        Some(text_of(slice_subrange(line, start + 1, end)))
    } else {
        None
    }
}

fn parse_syscall_name(line: &[char]) -> (name: Option<String>)
    ensures
        crate::text::text_view(name) == syscall_name_of(line@),
{
    let open: usize = find_char(line, '(', 0);
    if open >= line.len() {
        return None;
    }
    let text = slice_subrange(line, 0, open);
    let end: usize = find_text_end(text);
    let mut start: usize = end;
    while start > 0 && !is_space_char(text[start - 1])
        invariant
            start <= end <= text.len(),
            word_start(text@, end as int) == word_start(text@, start as int),
        decreases start,
    {
        start -= 1;
    }
    if start < end {
        Some(text_of(slice_subrange(text, start, end)))
    } else {
        None
    }
}

/// The lines with a duration among the first `count` lines.
pub open spec fn syscall_lines_of(lines: Seq<Seq<char>>, count: int) -> Seq<SyscallModel>
    decreases count,
{
    if count <= 0 {
        Seq::empty()
    } else {
        match duration_of(lines[count - 1]) {
            None => syscall_lines_of(lines, count - 1),
            Some(duration) => syscall_lines_of(lines, count - 1).push(
                SyscallModel { syscall: syscall_name_of(lines[count - 1]), duration },
            ),
        }
    }
}

/// Reads the lines with a duration.
#[must_use]
pub fn parse_syscall_lines(input: &str) -> (calls: Vec<SyscallLine>)
    ensures
        views(calls@) == syscall_lines_of(
            lines_from(input@, 0),
            lines_from(input@, 0).len() as int,
        ),
{
    let lines = lines_of(input);
    let ghost all = views(lines@);
    let mut calls: Vec<SyscallLine> = Vec::new();
    let mut index: usize = 0;
    assert(views(calls@) =~= Seq::empty());
    while index < lines.len()
        invariant
            index <= lines@.len(),
            all == views(lines@),
            views(calls@) == syscall_lines_of(all, index as int),
        decreases lines@.len() - index,
    {
        let line = lines[index].as_slice();
        assert(all[index as int] == line@);
        if let Some(duration) = parse_duration(line) {
            let ghost before = views(calls@);
            let call = SyscallLine { syscall: parse_syscall_name(line), duration };
            calls.push(call);
            assert(views(calls@) =~= before.push(call@));
        }
        index += 1;
    }
    calls
}

// ---------------------------------------------------------------------------
// Summaries
// ---------------------------------------------------------------------------

/// How many calls were timed, and the lines of each system call, in the order of the calls' names.
#[derive(Clone, Debug, Eq, PartialEq)]
pub struct StraceSummary {
    pub total_calls: u64,
    pub by_syscall: Vec<NameGroup>,
}

/// How many of the first `count` lines are timed.
pub open spec fn timed_count(timed: Seq<bool>, count: int) -> nat
    decreases count,
{
    if count <= 0 {
        0
    } else if timed[count - 1] {
        timed_count(timed, count - 1) + 1
    } else {
        timed_count(timed, count - 1)
    }
}

/// The calls of the lines that are timed, where they name one.
pub open spec fn timed_calls(calls: Seq<SyscallModel>, timed: Seq<bool>) -> Seq<
    Option<Seq<char>>,
> {
    Seq::new(
        calls.len(),
        |i: int|
            if timed[i] {
                calls[i].syscall
            } else {
                None
            },
    )
}

/// Counts the calls of the lines whose durations are numbers, which `timed` tells.
#[must_use]
pub fn parse_strace_summary(calls: &[SyscallLine], timed: &[bool]) -> (summary: StraceSummary)
    requires
        calls@.len() == timed@.len(),
    ensures
        summary.total_calls == timed_count(timed@, timed@.len() as int),
        groups_names(views(summary.by_syscall@), timed_calls(views(calls@), timed@)),
{
    let ghost all = views(calls@);
    let mut total_calls: u64 = 0;
    let mut names: Vec<Option<String>> = Vec::with_capacity(calls.len());
    let mut index: usize = 0;
    while index < calls.len()
        invariant
            index <= calls@.len(),
            calls@.len() == timed@.len(),
            all == views(calls@),
            total_calls <= index,
            total_calls == timed_count(timed@, index as int),
            names@.len() == index,
            forall|i: int|
                0 <= i < index ==> crate::text::text_view(#[trigger] names@[i]) == timed_calls(
                    all,
                    timed@,
                )[i],
        decreases calls@.len() - index,
    {
        assert(all[index as int] == calls@[index as int]@);
        if timed[index] {
            total_calls += 1;
            names.push(crate::cli::copy_text(&calls[index].syscall));
        } else {
            names.push(None);
        }
        index += 1;
    }
    assert(name_views(names@) =~= timed_calls(all, timed@));
    StraceSummary { total_calls, by_syscall: group_by_name(names.as_slice()) }
}

/// The lines of the first `count` system calls.
pub open spec fn syscall_texts(
    groups: Seq<(Seq<char>, Seq<usize>)>,
    seconds: Seq<Seq<char>>,
    count: int,
) -> Seq<char>
    decreases count,
{
    if count <= 0 {
        Seq::empty()
    } else {
        syscall_texts(groups, seconds, count - 1) + groups[count - 1].0 + ": calls="@ + decimal(
            groups[count - 1].1.len(),
        ) + " seconds="@ + seconds[count - 1] + "\n"@
    }
}

/// The text of a summary, with the seconds of all calls and those of each system call as they are
/// printed.
#[must_use]
pub fn render_strace_summary_text(
    summary: &StraceSummary,
    total_seconds: &str,
    seconds: &[String],
) -> (text: String)
    requires
        seconds@.len() == summary.by_syscall@.len(),
    ensures
        text@ == "syscall calls: "@ + decimal(summary.total_calls as nat) + "\nsyscall seconds: "@
            + total_seconds@ + "\n"@ + syscall_texts(
            views(summary.by_syscall@),
            views(seconds@),
            seconds@.len() as int,
        ),
{
    let mut text = "syscall calls: ".to_string();
    push_decimal(&mut text, summary.total_calls as u128);
    text.append("\nsyscall seconds: ");
    text.append(total_seconds);
    text.append("\n");
    let ghost start = text@;
    let ghost groups = views(summary.by_syscall@);
    let ghost shown = views(seconds@);
    let mut index: usize = 0;
    assert(start + Seq::<char>::empty() =~= start);
    while index < seconds.len()
        invariant
            index <= seconds@.len(),
            seconds@.len() == summary.by_syscall@.len(),
            groups == views(summary.by_syscall@),
            shown == views(seconds@),
            text@ == start + syscall_texts(groups, shown, index as int),
        decreases seconds@.len() - index,
    {
        let group = &summary.by_syscall[index];
        assert(groups[index as int] == group@);
        assert(shown[index as int] == seconds@[index as int]@);
        text.append(group.name.as_str());
        text.append(": calls=");
        push_decimal(&mut text, group.members.len() as u128);
        text.append(" seconds=");
        text.append(seconds[index].as_str());
        text.append("\n");
        index += 1;
        assert(text@ =~= start + syscall_texts(groups, shown, index as int));
    }
    text
}

// ---------------------------------------------------------------------------
// Laws
// ---------------------------------------------------------------------------

proof fn word_starts_behind_space(chars: Seq<char>, end: int, at: int)
    requires
        0 <= at <= end <= chars.len(),
        forall|i: int| at <= i < end ==> !is_space(#[trigger] chars[i]),
        at > 0 ==> is_space(chars[at - 1]),
    ensures
        word_start(chars, end) == at,
    decreases end - at,
{
    if at < end {
        word_starts_behind_space(chars, end - 1, at);
    }
}

/// The name of a call is the word that stands in front of the first round bracket of its line,
/// whatever stands behind the bracket: words in front of the name do not belong to it, and neither
/// do blanks between it and the bracket.
pub proof fn name_is_read_in_front_of_the_bracket(
    front: Seq<char>,
    name: Seq<char>,
    blanks: Seq<char>,
    rest: Seq<char>,
)
    requires
        is_free_of(front, '('),
        front.len() > 0 ==> is_space(front.last()),
        name.len() > 0,
        is_word(name),
        is_free_of(name, '('),
        is_blank(blanks),
    ensures
        syscall_name_of(front + name + blanks + seq!['('] + rest) == Some(name),
{
    let text = front + name + blanks;
    let line = text + seq!['('] + rest;
    assert forall|i: int| 0 <= i < text.len() implies #[trigger] text[i] != '(' by {
        if i < front.len() {
            assert(text[i] == front[i]);
        } else if i < front.len() + name.len() {
            assert(text[i] == name[i - front.len()]);
        } else {
            assert(text[i] == blanks[i - front.len() - name.len()]);
        }
    }
    character_is_found_first(text, '(', rest);
    assert(line.subrange(0, text.len() as int) =~= text);
    let end = (front.len() + name.len()) as int;
    assert forall|i: int| end <= i < text.len() implies is_space(#[trigger] text[i]) by {
        assert(text[i] == blanks[i - end]);
    }
    assert(text[end - 1] == name.last());
    text_end_is_in_front(text, text.len() as int, end);
    assert forall|i: int| front.len() <= i < end implies !is_space(#[trigger] text[i]) by {
        assert(text[i] == name[i - front.len()]);
    }
    if front.len() > 0 {
        assert(text[front.len() - 1] == front.last());
    }
    word_starts_behind_space(text, end, front.len() as int);
    assert(text.subrange(front.len() as int, end) =~= name);
}

/// A line names no call where it holds no round bracket, or nothing but blanks in front of the
/// first one.
pub proof fn no_name_without_a_word_and_a_bracket(blanks: Seq<char>, line: Seq<char>)
    requires
        is_blank(blanks),
        is_free_of(line, '('),
    ensures
        syscall_name_of(line) is None,
        forall|rest: Seq<char>| (#[trigger] syscall_name_of(blanks + seq!['('] + rest)) is None,
{
    character_is_found_first(line, '(', line);
    assert forall|rest: Seq<char>| (#[trigger] syscall_name_of(
        blanks + seq!['('] + rest,
    )) is None by {
        let text = blanks + seq!['('] + rest;
        character_is_found_first(blanks, '(', rest);
        assert(text.subrange(0, blanks.len() as int) =~= blanks);
        text_end_is_in_front(blanks, blanks.len() as int, 0);
    }
}

/// The duration of a line is what stands in its last angle brackets.
pub proof fn duration_stands_in_the_last_angle_brackets(
    front: Seq<char>,
    duration: Seq<char>,
    rest: Seq<char>,
)
    requires
        is_free_of(duration, '<'),
        is_free_of(duration, '>'),
        is_free_of(rest, '<'),
    ensures
        duration_of(front + seq!['<'] + duration + seq!['>'] + rest) == Some(duration),
{
    let line = front + seq!['<'] + duration + seq!['>'] + rest;
    let behind = duration + seq!['>'] + rest;
    assert forall|i: int| 0 <= i < behind.len() implies #[trigger] behind[i] != '<' by {
        if i < duration.len() {
            assert(behind[i] == duration[i]);
        } else if i > duration.len() {
            assert(behind[i] == rest[i - duration.len() - 1]);
        }
    }
    assert(line =~= front + seq!['<'] + behind);
    character_is_found_last(front, '<', behind);
    let start = front.len() as int;
    let end = start + 1 + duration.len();
    first_char_is_first(line, '>', start);
    let found = first_char(line, '>', start);
    assert(line[end] == '>');
    assert(line[start] == '<');
    if start < found < end {
        assert(line[found] == duration[found - start - 1]);
    }
    assert(line.subrange(start + 1, end) =~= duration);
}

/// A line has no duration where it holds no opening angle bracket, or no closing one behind the
/// last of them.
pub proof fn no_duration_without_angle_brackets(front: Seq<char>, rest: Seq<char>)
    requires
        is_free_of(rest, '<'),
        is_free_of(rest, '>'),
    ensures
        duration_of(rest) is None,
        duration_of(front + seq!['<'] + rest) is None,
{
    let line = front + seq!['<'] + rest;
    character_is_found_last(front, '<', rest);
    let start = front.len() as int;
    first_char_is_first(line, '>', start);
    let found = first_char(line, '>', start);
    if found < line.len() {
        assert(line[start] == '<');
        assert(line[found] == rest[found - start - 1]);
    }
}

proof fn timed_lines_are_kept_up_to(lines: Seq<Seq<char>>, count: int)
    requires
        0 <= count <= lines.len(),
    ensures
        syscall_lines_of(lines, count) == lines.take(count).filter(
            |line: Seq<char>| duration_of(line) is Some,
        ).map_values(
            |line: Seq<char>|
                SyscallModel { syscall: syscall_name_of(line), duration: duration_of(line)->0 },
        ),
    decreases count,
{
    reveal(Seq::filter);
    let timed = |line: Seq<char>| duration_of(line) is Some;
    let call = |line: Seq<char>|
        SyscallModel { syscall: syscall_name_of(line), duration: duration_of(line)->0 };
    if count > 0 {
        timed_lines_are_kept_up_to(lines, count - 1);
        assert(lines.take(count).drop_last() =~= lines.take(count - 1));
        assert(lines.take(count).last() == lines[count - 1]);
        let kept = lines.take(count - 1).filter(timed);
        assert(kept.push(lines[count - 1]).map_values(call) =~= kept.map_values(call).push(
            call(lines[count - 1]),
        ));
    } else {
        assert(lines.take(0) =~= Seq::empty());
        assert(lines.take(0).filter(timed).map_values(call) =~= Seq::empty());
    }
}

/// The calls of a text are those of its lines with a duration, each with the name that its own
/// line holds, in the order of the lines.
pub proof fn timed_lines_are_kept_in_order(lines: Seq<Seq<char>>)
    ensures
        syscall_lines_of(lines, lines.len() as int) == lines.filter(
            |line: Seq<char>| duration_of(line) is Some,
        ).map_values(
            |line: Seq<char>|
                SyscallModel { syscall: syscall_name_of(line), duration: duration_of(line)->0 },
        ),
{
    timed_lines_are_kept_up_to(lines, lines.len() as int);
    assert(lines.take(lines.len() as int) =~= lines);
}

proof fn timed_lines_are_counted_up_to(timed: Seq<bool>, count: int)
    requires
        0 <= count <= timed.len(),
    ensures
        timed_count(timed, count) == timed.take(count).to_multiset().count(true),
    decreases count,
{
    broadcast use vstd::seq_lib::group_to_multiset_ensures;

    if count > 0 {
        timed_lines_are_counted_up_to(timed, count - 1);
        assert(timed.take(count) =~= timed.take(count - 1).push(timed[count - 1]));
    } else {
        assert(timed.take(0) =~= Seq::empty());
    }
}

/// As many calls are counted as lines are timed.
pub proof fn timed_lines_are_counted(timed: Seq<bool>)
    ensures
        timed_count(timed, timed.len() as int) == timed.to_multiset().count(true),
{
    timed_lines_are_counted_up_to(timed, timed.len() as int);
    assert(timed.take(timed.len() as int) =~= timed);
}

} // verus!
