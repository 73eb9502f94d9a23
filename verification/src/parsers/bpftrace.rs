//! Off-CPU stacks that `bpftrace` prints.

use vstd::prelude::*;
use vstd::slice::slice_subrange;

use crate::folded::{folded_line, joined_frames, render_folded_stack};
use crate::text::{
    beginning_is_being_in_front, begins_with, character_is_found_first, character_is_found_last,
    decimal, decimal_is_read, ending_is_being_behind, ends_in, ends_with, find_char, first_char,
    is_blank, is_digit, is_free_of, is_space, is_space_char, is_word, last_at, last_char,
    lines_from, lines_of, only_space_is_trimmed, parse_number, rfind_char, rfind_text, starts_with,
    stated_number, stated_numbers_are_read, text_is_found_last, text_of, trim, trimmed, views,
};

verus! {

/// The count in a line that ends a stack.
pub open spec fn count_of(line: Seq<char>) -> Option<u64> {
    let text = trimmed(line);
    if begins_with(text, "]:"@) {
        stated_number(trimmed(text.subrange(2, text.len() as int)))
    } else {
        None
    }
}

fn parse_count(line: &[char]) -> (count: Option<u64>)
    ensures
        count == count_of(line@),
{
    proof {
        reveal_strlit("]:");
    }
    let text = trim(line);
    if starts_with(text, "]:") {
        parse_number(trim(slice_subrange(text, 2, text.len())))
    } else {
        None
    }
}

/// A frame without the object in brackets behind it.
pub open spec fn without_object(frame: Seq<char>) -> Seq<char> {
    match last_at(frame, " ("@, frame.len() as int) {
        Some(at) => if ends_in(frame, ")"@) {
            frame.subrange(0, at)
        } else {
            frame
        },
        None => frame,
    }
}

/// Whether all characters from `from` on are decimal digits.
pub open spec fn digits_from(chars: Seq<char>, from: int) -> bool {
    forall|i: int| from <= i < chars.len() ==> is_digit(#[trigger] chars[i])
}

/// A frame without the offset behind it.
pub open spec fn without_number(frame: Seq<char>) -> Seq<char> {
    match last_char(frame, '+', frame.len() as int) {
        Some(at) => if digits_from(frame, at + 1) {
            frame.subrange(0, at)
        } else {
            frame
        },
        None => frame,
    }
}

/// The function in the line of a frame: what follows the address, without object and offset.
pub open spec fn frame_of(line: Seq<char>) -> Option<Seq<char>> {
    let text = trimmed(line);
    let space = first_char(text, ' ', 0);
    if space >= text.len() {
        None
    } else {
        let frame = without_number(
            without_object(trimmed(text.subrange(space + 1, text.len() as int))),
        );
        if frame.len() == 0 || ends_in(frame, "([unknown])"@) {
            None
        } else {
            Some(frame)
        }
    }
}

fn has_only_digits(chars: &[char], from: usize) -> (found: bool)
    requires
        from <= chars.len(),
    ensures
        found == digits_from(chars@, from as int),
{
    let mut i: usize = from;
    while i < chars.len()
        invariant
            from <= i <= chars.len(),
            forall|j: int| from <= j < i ==> is_digit(#[trigger] chars@[j]),
        decreases chars.len() - i,
    {
        if chars[i] < '0' || chars[i] > '9' {
            return false;
        }
        i += 1;
    }
    true
}

fn parse_frame(line: &[char]) -> (frame: Option<String>)
    ensures
        crate::text::text_view(frame) == frame_of(line@),
{
    let text = trim(line);
    let space: usize = find_char(text, ' ', 0);
    if space >= text.len() {
        return None;
    }
    let frame = trim(slice_subrange(text, space + 1, text.len()));
    let frame = match rfind_text(frame, " (") {
        Some(at) => if ends_with(frame, ")") {
            slice_subrange(frame, 0, at)
        } else {
            frame
        },
        None => frame,
    };
    let frame = match rfind_char(frame, '+') {
        Some(at) => if has_only_digits(frame, at + 1) {
            slice_subrange(frame, 0, at)
        } else {
            frame
        },
        None => frame,
    };
    if frame.len() == 0 || ends_with(frame, "([unknown])") {
        None
    } else {
        Some(text_of(frame))
    }
}

/// The folded lines of the stacks in the lines from index `from` on, when `frames` of the
/// current stack, if there is one, were read, the innermost first.
pub open spec fn collapsed_from(
    lines: Seq<Seq<char>>,
    from: int,
    frames: Option<Seq<Seq<char>>>,
) -> Seq<Seq<char>>
    decreases lines.len() - from,
{
    if from >= lines.len() {
        Seq::empty()
    } else {
        let line = lines[from];
        if begins_with(line, "@offcpu["@) {
            collapsed_from(lines, from + 1, Some(Seq::empty()))
        } else {
            match frames {
                None => collapsed_from(lines, from + 1, None),
                Some(frames) => match count_of(line) {
                    Some(count) => (if frames.len() > 0 {
                        seq![
                            folded_line(
                                joined_frames(frames.reverse(), frames.len() as int),
                                count,
                            ),
                        ]
                    } else {
                        Seq::empty()
                    }) + collapsed_from(lines, from + 1, None),
                    None => match frame_of(line) {
                        Some(frame) => if line.len() > 0 && is_space(line[0]) {
                            collapsed_from(lines, from + 1, Some(frames.push(frame)))
                        } else {
                            collapsed_from(lines, from + 1, Some(frames))
                        },
                        None => collapsed_from(lines, from + 1, Some(frames)),
                    },
                },
            }
        }
    }
}

fn render_reversed(frames: &Vec<String>, count: u64) -> (line: String)
    ensures
        line@ == folded_line(
            joined_frames(views(frames@).reverse(), frames@.len() as int),
            count,
        ),
{
    let mut names: Vec<&str> = Vec::with_capacity(frames.len());
    let mut left: usize = frames.len();
    while left > 0
        invariant
            left <= frames@.len(),
            names@.len() == frames@.len() - left,
            forall|i: int|
                0 <= i < names@.len() ==> (#[trigger] names@[i])@ == frames@[frames@.len() - 1 - i]@,
        decreases left,
    {
        left -= 1;
        names.push(frames[left].as_str());
    }
    assert(views(names@) =~= views(frames@).reverse());
    render_folded_stack(names.as_slice(), count)
}

/// The frames of the stack that is being read.
spec fn current(frames: Option<Vec<String>>) -> Option<Seq<Seq<char>>> {
    match frames {
        Some(frames) => Some(views(frames@)),
        None => None,
    }
}

/// Folds the off-CPU stacks that `bpftrace` prints.
pub fn collapse_offcpu(input: &str) -> (collapsed: Vec<String>)
    ensures
        views(collapsed@) == collapsed_from(lines_from(input@, 0), 0, None),
{
    proof {
        reveal_strlit("@offcpu[");
    }
    let lines = lines_of(input);
    let ghost all = views(lines@);
    let mut collapsed: Vec<String> = Vec::new();
    let mut frames: Option<Vec<String>> = None;
    let ghost whole = collapsed_from(all, 0, None);
    assert(views(collapsed@) + whole =~= whole);
    let mut index: usize = 0;
    while index < lines.len()
        invariant
            index <= lines@.len(),
            all == views(lines@),
            whole == views(collapsed@) + collapsed_from(all, index as int, current(frames)),
        decreases lines@.len() - index,
    {
        let line = lines[index].as_slice();
        assert(all[index as int] == line@);
        let ghost told = current(frames);
        let ghost before = views(collapsed@);
        index += 1;
        if starts_with(line, "@offcpu[") {
            let fresh: Vec<String> = Vec::new();
            assert(views(fresh@) =~= Seq::empty());
            frames = Some(fresh);
            continue ;
        }
        match frames {
            None => {},
            Some(read) => match parse_count(line) {
                Some(count) => {
                    frames = None;
                    if read.len() > 0 {
                        let text = render_reversed(&read, count);
                        collapsed.push(text);
                        proof {
                            assert(views(collapsed@) =~= before.push(text@));
                            let rest = collapsed_from(all, index as int, None);
                            assert(before + (seq![text@] + rest) =~= views(collapsed@) + rest);
                        }
                    } else {
                        proof {
                            let rest = collapsed_from(all, index as int, None);
                            assert(Seq::<Seq<char>>::empty() + rest =~= rest);
                        }
                    }
                },
                None => {
                    let mut read = read;
                    if line.len() > 0 && is_space_char(line[0]) {
                        if let Some(frame) = parse_frame(line) {
                            let ghost known = views(read@);
                            read.push(frame);
                            assert(views(read@) =~= known.push(frame@));
                        }
                    }
                    frames = Some(read);
                },
            },
        }
    }
    assert(views(collapsed@) + Seq::<Seq<char>>::empty() =~= views(collapsed@));
    collapsed
}

// ---------------------------------------------------------------------------
// Laws
// ---------------------------------------------------------------------------

/// The count behind the end of a stack is read, whatever blanks stand around it.
pub proof fn counts_are_read(
    left: Seq<char>,
    blanks: Seq<char>,
    count: u64,
    right: Seq<char>,
)
    requires
        is_blank(left),
        is_blank(blanks),
        is_blank(right),
    ensures
        count_of(left + ("]:"@ + blanks + decimal(count as nat)) + right) == Some(count),
{
    reveal_strlit("]:");
    let digits = decimal(count as nat);
    decimal_is_read(count as nat);
    stated_numbers_are_read(count);
    let text = "]:"@ + blanks + digits;
    assert(is_digit(digits[0]));
    assert(is_digit(digits[digits.len() - 1]));
    assert(text[0] == ']');
    assert(text.last() == digits.last());
    only_space_is_trimmed(left, text, right);
    beginning_is_being_in_front(text, "]:"@);
    assert(text =~= "]:"@ + (blanks + digits));
    let behind = text.subrange(2, text.len() as int);
    assert(behind =~= blanks + digits + Seq::<char>::empty());
    only_space_is_trimmed(blanks, digits, Seq::empty());
}

proof fn objects_are_left_out(shown: Seq<char>, object: Seq<char>)
    requires
        is_free_of(object, ' '),
    ensures
        without_object(shown + " ("@ + (object + ")"@)) == shown,
{
    reveal_strlit(" (");
    reveal_strlit(")");
    let tail = object + ")"@;
    let frame = shown + " ("@ + tail;
    assert(" ("@.drop_first() =~= seq!['(']);
    assert(is_free_of(" ("@.drop_first(), ' '));
    assert forall|i: int| 0 <= i < tail.len() implies #[trigger] tail[i] != ' ' by {
        if i < object.len() {
            assert(tail[i] == object[i]);
        }
    }
    text_is_found_last(shown, " ("@, tail);
    assert(frame =~= (shown + " ("@ + object) + ")"@);
    ending_is_being_behind(frame, ")"@);
    assert(frame.subrange(0, shown.len() as int) =~= shown);
}

proof fn numbers_are_left_out(name: Seq<char>, offset: Seq<char>)
    requires
        forall|i: int| 0 <= i < offset.len() ==> is_digit(#[trigger] offset[i]),
    ensures
        without_number(name + seq!['+'] + offset) == name,
{
    let shown = name + seq!['+'] + offset;
    assert forall|i: int| 0 <= i < offset.len() implies #[trigger] offset[i] != '+' by {
        assert(is_digit(offset[i]));
    }
    character_is_found_last(name, '+', offset);
    assert forall|i: int| name.len() + 1 <= i < shown.len() implies is_digit(
        #[trigger] shown[i],
    ) by {
        assert(shown[i] == offset[i - name.len() - 1]);
    }
    assert(shown.subrange(0, name.len() as int) =~= name);
}

proof fn addresses_are_left_out(
    left: Seq<char>,
    address: Seq<char>,
    frame: Seq<char>,
    right: Seq<char>,
)
    requires
        is_blank(left),
        address.len() > 0,
        is_word(address),
        frame.len() > 0,
        !is_space(frame[0]),
        !is_space(frame.last()),
        is_blank(right),
    ensures
        ({
            let text = trimmed(left + (address + seq![' '] + frame) + right);
            let space = first_char(text, ' ', 0);
            &&& space < text.len()
            &&& trimmed(text.subrange(space + 1, text.len() as int)) == frame
        }),
{
    let text = address + seq![' '] + frame;
    assert(text[0] == address[0]);
    assert(!is_space(address[0]));
    assert(text.last() == frame.last());
    only_space_is_trimmed(left, text, right);
    assert forall|i: int| 0 <= i < address.len() implies #[trigger] address[i] != ' ' by {
        assert(!is_space(address[i]));
    }
    character_is_found_first(address, ' ', frame);
    assert(text.subrange(address.len() as int + 1, text.len() as int) =~= frame);
    assert(frame =~= Seq::<char>::empty() + frame + Seq::<char>::empty());
    only_space_is_trimmed(Seq::empty(), frame, Seq::empty());
}

/// The function of a line stands between the address and the offset, behind which the object
/// stands in brackets.
pub proof fn functions_are_read(
    left: Seq<char>,
    address: Seq<char>,
    name: Seq<char>,
    offset: Seq<char>,
    object: Seq<char>,
    right: Seq<char>,
)
    requires
        is_blank(left),
        address.len() > 0,
        is_word(address),
        name.len() > 0,
        !is_space(name[0]),
        !ends_in(name, "([unknown])"@),
        forall|i: int| 0 <= i < offset.len() ==> is_digit(#[trigger] offset[i]),
        is_free_of(object, ' '),
        is_blank(right),
    ensures
        frame_of(
            left + (address + seq![' '] + (name + seq!['+'] + offset + " ("@ + (object + ")"@)))
                + right,
        ) == Some(name),
{
    let shown = name + seq!['+'] + offset;
    let frame = shown + " ("@ + (object + ")"@);
    assert(frame[0] == name[0] && frame.last() == ')') by {
        reveal_strlit(")");
    }
    objects_are_left_out(shown, object);
    numbers_are_left_out(name, offset);
    addresses_are_left_out(left, address, frame, right);
}

proof fn collapsed_behind(
    front: Seq<Seq<char>>,
    lines: Seq<Seq<char>>,
    from: int,
    frames: Option<Seq<Seq<char>>>,
)
    requires
        0 <= from <= lines.len(),
    ensures
        collapsed_from(front + lines, front.len() + from, frames) == collapsed_from(
            lines,
            from,
            frames,
        ),
    decreases lines.len() - from,
{
    if from < lines.len() {
        assert((front + lines)[front.len() + from] == lines[from]);
        let line = lines[from];
        collapsed_behind(front, lines, from + 1, None);
        collapsed_behind(front, lines, from + 1, Some(Seq::empty()));
        if let Some(frames) = frames {
            collapsed_behind(front, lines, from + 1, Some(frames));
            if let Some(frame) = frame_of(line) {
                collapsed_behind(front, lines, from + 1, Some(frames.push(frame)));
            }
        }
    }
}

proof fn frames_are_gathered(
    lines: Seq<Seq<char>>,
    frames: Seq<Seq<char>>,
    rest: Seq<Seq<char>>,
    before: Seq<Seq<char>>,
    from: int,
)
    requires
        0 <= from <= lines.len(),
        lines.len() == frames.len(),
        forall|i: int|
            0 <= i < lines.len() ==> (#[trigger] lines[i]).len() > 0 && is_space(lines[i][0])
                && !begins_with(lines[i], "@offcpu["@) && count_of(lines[i]) is None && frame_of(
                lines[i],
            ) == Some(frames[i]),
    ensures
        collapsed_from(lines + rest, from, Some(before + frames.take(from))) == collapsed_from(
            rest,
            0,
            Some(before + frames),
        ),
    decreases lines.len() - from,
{
    if from < lines.len() {
        assert((lines + rest)[from] == lines[from]);
        frames_are_gathered(lines, frames, rest, before, from + 1);
        assert((before + frames.take(from)).push(frames[from]) =~= before + frames.take(from + 1));
    } else {
        assert(frames.take(from) =~= frames);
        collapsed_behind(lines, rest, 0, Some(before + frames));
    }
}

/// A stack that is printed with the innermost frame first becomes one folded line with the
/// outermost frame first and its count, in front of those of the lines behind it.
pub proof fn printed_stacks_are_turned_round(
    head: Seq<char>,
    lines: Seq<Seq<char>>,
    frames: Seq<Seq<char>>,
    end: Seq<char>,
    count: u64,
    rest: Seq<Seq<char>>,
)
    requires
        begins_with(head, "@offcpu["@),
        lines.len() == frames.len(),
        frames.len() > 0,
        forall|i: int|
            0 <= i < lines.len() ==> (#[trigger] lines[i]).len() > 0 && is_space(lines[i][0])
                && !begins_with(lines[i], "@offcpu["@) && count_of(lines[i]) is None && frame_of(
                lines[i],
            ) == Some(frames[i]),
        !begins_with(end, "@offcpu["@),
        count_of(end) == Some(count),
    ensures
        collapsed_from(seq![head] + (lines + (seq![end] + rest)), 0, None) == seq![
            folded_line(joined_frames(frames.reverse(), frames.len() as int), count),
        ] + collapsed_from(rest, 0, None),
{
    let tail = seq![end] + rest;
    let body = lines + tail;
    let all = seq![head] + body;
    assert(all[0] == head);
    collapsed_behind(seq![head], body, 0, Some(Seq::empty()));
    assert(Seq::<Seq<char>>::empty() + frames.take(0) =~= Seq::empty());
    frames_are_gathered(lines, frames, tail, Seq::empty(), 0);
    assert(Seq::<Seq<char>>::empty() + frames =~= frames);
    assert(tail[0] == end);
    collapsed_behind(seq![end], rest, 0, None);
}

} // verus!
