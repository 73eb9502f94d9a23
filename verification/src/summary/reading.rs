//! Folded stacks that were written can be read back.

use vstd::prelude::*;
use vstd::utf8::{decode_utf8, encode_utf8, valid_utf8};

use crate::folded::folded_line;
use crate::perfdata::fold::is_folded_text;
use crate::perfdata::fold_counts::{line_bytes, lists_lines, written_from, LineModel};
use crate::summary::threads::{folded_lines_are_readable, folded_stacks_of, CountedStack};
use crate::text::{decimal, decimal_is_read, first_char, is_digit, line_end, lines_from};

verus! {

/// Texts that are encoded one behind the other are encoded together.
pub proof fn encodings_join(first: Seq<char>, second: Seq<char>)
    ensures
        encode_utf8(first + second) == encode_utf8(first) + encode_utf8(second),
    decreases first.len(),
{
    if first.len() == 0 {
        assert(first + second =~= second);
        assert(encode_utf8(first) + encode_utf8(second) =~= encode_utf8(second));
    } else {
        let rest = first.drop_first();
        encodings_join(rest, second);
        assert((first + second).drop_first() =~= rest + second);
        assert(encode_utf8(first + second) =~= encode_utf8(first) + encode_utf8(second));
    }
}

/// The folded line of counted bytes.
pub open spec fn line_text(line: LineModel) -> Seq<char> {
    folded_line(decode_utf8(line.0), line.1)
}

/// The folded lines from an index on, each with its line end.
pub open spec fn text_from(lines: Seq<LineModel>, from: int) -> Seq<char>
    decreases lines.len() - from,
{
    if from >= lines.len() {
        Seq::empty()
    } else {
        line_text(lines[from]) + seq!['\n'] + text_from(lines, from + 1)
    }
}

proof fn ascii_encoding(c: char)
    requires
        c as u32 <= 0x7f,
    ensures
        encode_utf8(seq![c]) == seq![c as u8],
{
    vstd::utf8::is_ascii_chars_encode_utf8(seq![c]);
    assert(encode_utf8(seq![c]) =~= seq![c as u8]);
}

proof fn line_encoding(line: LineModel)
    requires
        valid_utf8(line.0),
    ensures
        encode_utf8(line_text(line) + seq!['\n']) == line_bytes(line),
{
    let stack = decode_utf8(line.0);
    let digits = decimal(line.1 as nat);
    vstd::utf8::decode_utf8_encode_utf8(line.0);
    assert(line_text(line) =~= stack + seq![' '] + digits);
    encodings_join(stack, seq![' ']);
    encodings_join(stack + seq![' '], digits);
    encodings_join(stack + seq![' '] + digits, seq!['\n']);
    ascii_encoding(' ');
    ascii_encoding('\n');
}

proof fn text_is_encoded(lines: Seq<LineModel>, from: int)
    requires
        0 <= from <= lines.len(),
        written_from(lines, from) is Ok,
    ensures
        written_from(lines, from)->Ok_0 == encode_utf8(text_from(lines, from)),
    decreases lines.len() - from,
{
    if from < lines.len() {
        text_is_encoded(lines, from + 1);
        line_encoding(lines[from]);
        encodings_join(line_text(lines[from]) + seq!['\n'], text_from(lines, from + 1));
    } else {
        assert(encode_utf8(Seq::<char>::empty()) =~= Seq::empty());
    }
}

proof fn first_char_is(chars: Seq<char>, wanted: char, from: int, at: int)
    requires
        0 <= from <= at < chars.len(),
        chars[at] == wanted,
        forall|i: int| from <= i < at ==> chars[i] != wanted,
    ensures
        first_char(chars, wanted, from) == at,
    decreases at - from,
{
    if from < at {
        first_char_is(chars, wanted, from + 1, at);
    }
}

/// The texts of the lines from an index on.
spec fn texts_from(lines: Seq<LineModel>, from: int) -> Seq<Seq<char>> {
    Seq::new((lines.len() - from) as nat, |i: int| line_text(lines[from + i]))
}

proof fn lines_are_found(lines: Seq<LineModel>, before: Seq<char>, from: int)
    requires
        0 <= from <= lines.len(),
        forall|i: int|
            0 <= i < lines.len() ==> !decode_utf8((#[trigger] lines[i]).0).contains('\n'),
    ensures
        lines_from(before + text_from(lines, from), before.len() as int) == texts_from(lines, from),
    decreases lines.len() - from,
{
    let chars = before + text_from(lines, from);
    let start = before.len() as int;
    if from < lines.len() {
        let line = line_text(lines[from]);
        let stack = decode_utf8(lines[from].0);
        let digits = decimal(lines[from].1 as nat);
        let end = start + line.len();
        decimal_is_read(lines[from].1 as nat);
        assert(line =~= stack + seq![' '] + digits);
        assert(chars[end] == '\n');
        assert forall|i: int| start <= i < end implies chars[i] != '\n' by {
            let k = i - start;
            assert(chars[i] == line[k]);
            if k < stack.len() {
                assert(stack[k] == line[k]);
                assert(stack.contains(stack[k]));
            } else if k > stack.len() {
                assert(line[k] == digits[k - stack.len() - 1]);
                assert(is_digit(digits[k - stack.len() - 1]));
            }
        }
        first_char_is(chars, '\n', start, end);
        assert(digits.len() > 0);
        assert(chars[end - 1] == digits[digits.len() - 1]);
        assert(is_digit(digits[digits.len() - 1]));
        assert(line_end(chars, start, end) == end);
        assert(chars.subrange(start, end) =~= line);
        let next = before + line + seq!['\n'];
        lines_are_found(lines, next, from + 1);
        assert(next + text_from(lines, from + 1) =~= chars);
        assert(texts_from(lines, from) =~= seq![line] + texts_from(lines, from + 1));
    } else {
        assert(chars =~= before);
        assert(texts_from(lines, from) =~= Seq::empty());
    }
}

/// The stacks of counted bytes, with their counts.
pub open spec fn stacks_of(lines: Seq<LineModel>) -> Seq<CountedStack> {
    Seq::new(lines.len(), |i: int| (decode_utf8(lines[i].0), lines[i].1))
}

proof fn stacks_are_read(lines: Seq<LineModel>, count: int)
    requires
        0 <= count <= lines.len(),
    ensures
        folded_stacks_of(texts_from(lines, 0), count) == stacks_of(lines).subrange(0, count),
    decreases count,
{
    if count > 0 {
        stacks_are_read(lines, count - 1);
        let line = lines[count - 1];
        folded_lines_are_readable(decode_utf8(line.0), line.1);
        assert(texts_from(lines, 0)[count - 1] == line_text(line));
        assert(stacks_of(lines).subrange(0, count - 1).push((decode_utf8(line.0), line.1))
            =~= stacks_of(lines).subrange(0, count));
    } else {
        assert(stacks_of(lines).subrange(0, 0) =~= Seq::empty());
    }
}

/// What is read of folded stacks that were written are the counted lines, each once and with its
/// count, where no line holds a line end.
pub proof fn written_stacks_are_read(text: Seq<char>, counts: Map<Seq<u8>, u64>)
    requires
        is_folded_text(text, counts),
        forall|bytes: Seq<u8>| #[trigger]
            counts.contains_key(bytes) ==> !decode_utf8(bytes).contains('\n'),
    ensures
        exists|lines: Seq<LineModel>| #[trigger]
            lists_lines(lines, counts) && folded_stacks_of(
                lines_from(text, 0),
                lines_from(text, 0).len() as int,
            ) == stacks_of(lines) && lines_from(text, 0).len() == lines.len(),
{
    let lines = choose|lines: Seq<LineModel>| #[trigger]
        lists_lines(lines, counts) && Ok::<Seq<u8>, Seq<char>>(encode_utf8(text)) == written_from(
            lines,
            0,
        );
    text_is_encoded(lines, 0);
    vstd::utf8::encode_utf8_decode_utf8(text);
    vstd::utf8::encode_utf8_decode_utf8(text_from(lines, 0));
    assert(text == text_from(lines, 0));
    assert forall|i: int| 0 <= i < lines.len() implies !decode_utf8(
        (#[trigger] lines[i]).0,
    ).contains('\n') by {
        assert(lines.contains(lines[i]));
    }
    assert(Seq::<char>::empty() + text_from(lines, 0) =~= text);
    lines_are_found(lines, Seq::empty(), 0);
    stacks_are_read(lines, lines.len() as int);
    assert(stacks_of(lines).subrange(0, lines.len() as int) =~= stacks_of(lines));
    assert(texts_from(lines, 0).len() == lines.len());
}

} // verus!
