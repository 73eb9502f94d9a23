//! Folded stacks: one line for each stack, its frames separated by semicolons, then its count.

use vstd::prelude::*;
use vstd::slice::slice_subrange;
use vstd::string::StringExecFns;

use crate::text::{
    begins_with, chars_of, contains_text, decimal, ending_is_being_behind, ends_in, ends_with,
    find_text, first_at, first_at_behind, first_at_is_first, has_hex_tail, hex_tail, hexadecimal,
    holds_text, is_free_of, is_hex_digit, joined_with, last_at, last_at_is_last, matches_at,
    push_decimal, push_hexadecimal, rfind_text, stands_at, starts_with, text_is_found_last,
    text_stands_between, views,
};

verus! {

// ---------------------------------------------------------------------------
// Frames
// ---------------------------------------------------------------------------

/// A character of a frame, such that it neither separates frames nor ends the line.
pub open spec fn escaped_char(c: char) -> Seq<char> {
    if c == ';' {
        seq!['\\', ';']
    } else if c == '\r' || c == '\n' {
        seq![' ']
    } else {
        seq![c]
    }
}

/// A frame, such that nothing in it separates frames or ends the line.
pub open spec fn escaped(frame: Seq<char>) -> Seq<char>
    decreases frame.len(),
{
    if frame.len() == 0 {
        Seq::empty()
    } else {
        escaped(frame.drop_last()) + escaped_char(frame.last())
    }
}

/// A text with a semicolon behind it, unless it is empty.
pub open spec fn separated(rendered: Seq<char>) -> Seq<char> {
    if rendered.len() > 0 {
        rendered.push(';')
    } else {
        rendered
    }
}

fn escape_chars_into(escaped_text: &mut String, frame: &[char])
    ensures
        final(escaped_text)@ == old(escaped_text)@ + escaped(frame@),
{
    let ghost start = escaped_text@;
    let mut i: usize = 0;
    assert(start + escaped(frame@.subrange(0, 0)) =~= start);
    while i < frame.len()
        invariant
            i <= frame.len(),
            escaped_text@ == start + escaped(frame@.subrange(0, i as int)),
        decreases frame.len() - i,
    {
        let c: char = frame[i];
        let ghost before = escaped_text@;
        if c == ';' {
            escaped_text.push('\\');
            escaped_text.push(';');
        } else if c == '\r' || c == '\n' {
            escaped_text.push(' ');
        } else {
            escaped_text.push(c);
        }
        i += 1;
        proof {
            assert(frame@.subrange(0, i as int).drop_last() =~= frame@.subrange(0, i - 1));
            assert(escaped_text@ =~= before + escaped_char(c));
            assert(escaped_text@ =~= start + escaped(frame@.subrange(0, i as int)));
        }
    }
    assert(frame@.subrange(0, i as int) =~= frame@);
}

fn append_separator(rendered: &mut String)
    ensures
        final(rendered)@ == separated(old(rendered)@),
{
    if rendered.as_str().unicode_len() > 0 {
        rendered.push(';');
    }
}

/// A frame, such that nothing in it separates frames or ends the line.
#[must_use]
pub fn escape_frame(frame: &str) -> (text: String)
    ensures
        text@ == escaped(frame@),
{
    let mut text = String::new();
    escape_chars_into(&mut text, chars_of(frame).as_slice());
    assert(Seq::<char>::empty() + escaped(frame@) =~= escaped(frame@));
    text
}

/// A rendered stack with one more frame.
pub open spec fn with_label(rendered: Seq<char>, frame: Seq<char>) -> Seq<char> {
    separated(rendered) + escaped(frame)
}

/// Appends a frame to a rendered stack.
pub fn append_inferno_perf_folded_label(rendered: &mut String, frame: &str)
    ensures
        final(rendered)@ == with_label(old(rendered)@, frame@),
{
    append_separator(rendered);
    escape_chars_into(rendered, chars_of(frame).as_slice());
}

/// A frame alone.
#[must_use]
pub fn render_inferno_perf_folded_label(frame: &str) -> (rendered: String)
    ensures
        rendered@ == escaped(frame@),
{
    let mut rendered = String::new();
    append_inferno_perf_folded_label(&mut rendered, frame);
    assert(rendered@ =~= escaped(frame@));
    rendered
}

// ---------------------------------------------------------------------------
// Stacks
// ---------------------------------------------------------------------------

/// The first `count` frames of a stack, separated by semicolons.
pub open spec fn joined_frames(frames: Seq<Seq<char>>, count: int) -> Seq<char>
    decreases count,
{
    if count <= 0 {
        Seq::empty()
    } else {
        with_label(joined_frames(frames, count - 1), frames[count - 1])
    }
}

/// The line of a stack: its frames, a space and its count.
pub open spec fn folded_line(stack: Seq<char>, count: u64) -> Seq<char> {
    stack + seq![' '] + decimal(count as nat)
}

fn append_count(rendered: &mut String, count: u64)
    ensures
        final(rendered)@ == folded_line(old(rendered)@, count),
{
    let ghost start = rendered@;
    rendered.push(' ');
    push_decimal(rendered, count as u128);
    assert(rendered@ =~= folded_line(start, count));
}

/// The line of a stack.
#[must_use]
pub fn render_folded_stack(frames: &[&str], count: u64) -> (rendered: String)
    ensures
        rendered@ == folded_line(joined_frames(views(frames@), frames@.len() as int), count),
{
    let mut rendered = String::new();
    let mut i: usize = 0;
    while i < frames.len()
        invariant
            i <= frames.len(),
            rendered@ == joined_frames(views(frames@), i as int),
        decreases frames.len() - i,
    {
        append_inferno_perf_folded_label(&mut rendered, frames[i]);
        assert(views(frames@)[i as int] == frames@[i as int]@);
        i += 1;
    }
    append_count(&mut rendered, count);
    rendered
}

/// The texts of some addresses.
pub open spec fn address_texts(frames: Seq<u64>) -> Seq<Seq<char>> {
    Seq::new(frames.len(), |i: int| "0x"@ + hexadecimal(frames[i] as nat, 1))
}

/// The line of a stack of addresses.
#[must_use]
pub fn render_address_stack(frames: &[u64], count: u64) -> (rendered: String)
    ensures
        rendered@ == folded_line(joined_frames(address_texts(frames@), frames@.len() as int), count),
{
    let mut rendered = String::new();
    let mut i: usize = 0;
    while i < frames.len()
        invariant
            i <= frames.len(),
            rendered@ == joined_frames(address_texts(frames@), i as int),
        decreases frames.len() - i,
    {
        let mut frame = "0x".to_string();
        push_hexadecimal(&mut frame, frames[i], 1);
        append_inferno_perf_folded_label(&mut rendered, frame.as_str());
        i += 1;
    }
    append_count(&mut rendered, count);
    rendered
}

// ---------------------------------------------------------------------------
// Symbols
// ---------------------------------------------------------------------------

/// A symbol without the offset behind it.
pub open spec fn without_offset(frame: Seq<char>) -> Seq<char> {
    match last_at(frame, "+0x"@, frame.len() as int) {
        Some(offset) => if hex_tail(frame, offset + 3) {
            frame.subrange(0, offset)
        } else {
            frame
        },
        None => frame,
    }
}

fn drop_offset(frame: &[char]) -> (symbol: &[char])
    ensures
        symbol@ == without_offset(frame@),
{
    proof {
        reveal_strlit("+0x");
    }
    match rfind_text(frame, "+0x") {
        Some(offset) => if has_hex_tail(frame, offset + 3) {
            slice_subrange(frame, 0, offset)
        } else {
            frame
        },
        None => frame,
    }
}

/// How many escapes there are in the names of Rust symbols.
pub const ESCAPE_COUNT: usize = 20;

/// An escape in the names of Rust symbols, and the character that it stands for.
pub open spec fn escape_code(index: int) -> (Seq<char>, char) {
    if index == 0 {
        ("$SP$"@, '@')
    } else if index == 1 {
        ("$BP$"@, '*')
    } else if index == 2 {
        ("$RF$"@, '&')
    } else if index == 3 {
        ("$LT$"@, '<')
    } else if index == 4 {
        ("$GT$"@, '>')
    } else if index == 5 {
        ("$LP$"@, '(')
    } else if index == 6 {
        ("$RP$"@, ')')
    } else if index == 7 {
        ("$C$"@, ',')
    } else if index == 8 {
        ("$u7e$"@, '~')
    } else if index == 9 {
        ("$u20$"@, ' ')
    } else if index == 10 {
        ("$u27$"@, '\'')
    } else if index == 11 {
        ("$u3d$"@, '=')
    } else if index == 12 {
        ("$u5b$"@, '[')
    } else if index == 13 {
        ("$u5d$"@, ']')
    } else if index == 14 {
        ("$u7b$"@, '{')
    } else if index == 15 {
        ("$u7d$"@, '}')
    } else if index == 16 {
        ("$u3b$"@, ';')
    } else if index == 17 {
        ("$u2b$"@, '+')
    } else if index == 18 {
        ("$u21$"@, '!')
    } else {
        ("$u22$"@, '"')
    }
}

fn escape_at(index: usize) -> (code: (&'static str, char))
    ensures
        (code.0@, code.1) == escape_code(index as int),
        code.0@.len() > 0,
{
    proof {
        reveal_strlit("$SP$");
        reveal_strlit("$BP$");
        reveal_strlit("$RF$");
        reveal_strlit("$LT$");
        reveal_strlit("$GT$");
        reveal_strlit("$LP$");
        reveal_strlit("$RP$");
        reveal_strlit("$C$");
        reveal_strlit("$u7e$");
        reveal_strlit("$u20$");
        reveal_strlit("$u27$");
        reveal_strlit("$u3d$");
        reveal_strlit("$u5b$");
        reveal_strlit("$u5d$");
        reveal_strlit("$u7b$");
        reveal_strlit("$u7d$");
        reveal_strlit("$u3b$");
        reveal_strlit("$u2b$");
        reveal_strlit("$u21$");
        reveal_strlit("$u22$");
    }
    match index {
        0 => ("$SP$", '@'),
        1 => ("$BP$", '*'),
        2 => ("$RF$", '&'),
        3 => ("$LT$", '<'),
        4 => ("$GT$", '>'),
        5 => ("$LP$", '('),
        6 => ("$RP$", ')'),
        7 => ("$C$", ','),
        8 => ("$u7e$", '~'),
        9 => ("$u20$", ' '),
        10 => ("$u27$", '\''),
        11 => ("$u3d$", '='),
        12 => ("$u5b$", '['),
        13 => ("$u5d$", ']'),
        14 => ("$u7b$", '{'),
        15 => ("$u7d$", '}'),
        16 => ("$u3b$", ';'),
        17 => ("$u2b$", '+'),
        18 => ("$u21$", '!'),
        _ => ("$u22$", '"'),
    }
}

/// The length of the first escape from number `index` on that stands at a position, and its
/// character.
pub open spec fn escape_from(chars: Seq<char>, at: int, index: int) -> Option<(int, char)>
    decreases ESCAPE_COUNT - index,
{
    if index >= ESCAPE_COUNT {
        None
    } else if stands_at(chars, at, escape_code(index).0) {
        Some((escape_code(index).0.len() as int, escape_code(index).1))
    } else {
        escape_from(chars, at, index + 1)
    }
}

fn rust_symbol_escape(chars: &[char], at: usize) -> (found: Option<(usize, char)>)
    requires
        at <= chars.len(),
    ensures
        match found {
            Some((len, c)) => escape_from(chars@, at as int, 0) == Some((len as int, c)) && 0 < len
                && at + len <= chars.len(),
            None => escape_from(chars@, at as int, 0) is None,
        },
{
    let mut index: usize = 0;
    while index < ESCAPE_COUNT
        invariant
            index <= ESCAPE_COUNT,
            at <= chars.len(),
            escape_from(chars@, at as int, 0) == escape_from(chars@, at as int, index as int),
        decreases ESCAPE_COUNT - index,
    {
        let (code, c) = escape_at(index);
        let wanted = chars_of(code);
        if matches_at(chars, at, wanted.as_slice()) {
            return Some((wanted.len(), c));
        }
        index += 1;
    }
    None
}

/// The first position from `from` on with a character that begins an escape.
pub open spec fn next_escape(chars: Seq<char>, from: int) -> int
    decreases chars.len() - from,
{
    if from >= chars.len() {
        chars.len() as int
    } else if chars[from] == '$' || chars[from] == '.' {
        from
    } else {
        next_escape(chars, from + 1)
    }
}

/// The characters from `from` to `end`, with escapes replaced: two dots stand for two colons,
/// dollar signs enclose the name of a character. Behind an unknown escape all stays as it is.
pub open spec fn unescaped(chars: Seq<char>, from: int) -> Seq<char>
    decreases chars.len() - from,
{
    if from < 0 || from >= chars.len() {
        Seq::empty()
    } else if chars[from] == '.' {
        if from + 1 < chars.len() && chars[from + 1] == '.' {
            seq![':', ':'] + unescaped(chars, from + 2)
        } else {
            seq!['.'] + unescaped(chars, from + 1)
        }
    } else if chars[from] == '$' {
        match escape_from(chars, from, 0) {
            Some((len, c)) => if 0 < len <= chars.len() - from {
                seq![c] + unescaped(chars, from + len)
            } else {
                Seq::empty()
            },
            None => chars.subrange(from, chars.len() as int),
        }
    } else {
        seq![chars[from]] + unescaped(chars, from + 1)
    }
}

fn unescape(chars: &[char]) -> (text: Vec<char>)
    ensures
        text@ == unescaped(chars@, 0),
{
    let mut text: Vec<char> = Vec::new();
    let mut from: usize = 0;
    let ghost whole = unescaped(chars@, 0);
    assert(text@ + whole =~= whole);
    while from < chars.len()
        invariant
            from <= chars.len(),
            whole == text@ + unescaped(chars@, from as int),
            whole == unescaped(chars@, 0),
        decreases chars.len() - from,
    {
        let ghost before = text@;
        let c: char = chars[from];
        if c == '.' {
            if from + 1 < chars.len() && chars[from + 1] == '.' {
                text.push(':');
                text.push(':');
                from += 2;
                assert(text@ =~= before + seq![':', ':']);
            } else {
                text.push('.');
                from += 1;
                assert(text@ =~= before + seq!['.']);
            }
        } else if c == '$' {
            match rust_symbol_escape(chars, from) {
                Some((len, decoded)) => {
                    text.push(decoded);
                    from += len;
                    assert(text@ =~= before + seq![decoded]);
                },
                None => {
                    let mut i: usize = from;
                    while i < chars.len()
                        invariant
                            from <= i <= chars.len(),
                            text@ == before + chars@.subrange(from as int, i as int),
                        decreases chars.len() - i,
                    {
                        text.push(chars[i]);
                        i += 1;
                        assert(text@ =~= before + chars@.subrange(from as int, i as int));
                    }
                    return text;
                },
            }
        } else {
            text.push(c);
            from += 1;
            assert(text@ =~= before + seq![c]);
        }
        proof {
            let rest = unescaped(chars@, from as int);
            assert(whole =~= text@ + rest);
        }
    }
    assert(text@ + unescaped(chars@, from as int) =~= text@);
    text
}

/// Whether a symbol ends in the hash of a Rust symbol: the letter `h` and sixteen hexadecimal
/// digits.
pub open spec fn has_rust_hash(symbol: Seq<char>) -> bool {
    symbol.len() >= 17 && symbol[symbol.len() - 17] == 'h' && hex_tail(symbol, symbol.len() - 16)
}

/// A symbol without the hash, the colons in front of it and the underscore in front of an
/// escape.
pub open spec fn rust_path(symbol: Seq<char>) -> Seq<char> {
    let hashless = symbol.subrange(0, symbol.len() - 17);
    let path = if ends_in(hashless, "::"@) {
        hashless.subrange(0, hashless.len() - 2)
    } else {
        hashless
    };
    if begins_with(path, "_$"@) {
        path.subrange(1, path.len() as int)
    } else {
        path
    }
}

/// A symbol whose Rust name was decoded only in part, decoded.
pub open spec fn demangled(symbol: Seq<char>) -> Seq<char> {
    if has_rust_hash(symbol) {
        unescaped(rust_path(symbol), 0)
    } else {
        symbol
    }
}

fn fix_partially_demangled_rust_symbol(symbol: &[char]) -> (fixed: Vec<char>)
    ensures
        fixed@ == demangled(symbol@),
{
    let len: usize = symbol.len();
    if len < 17 || symbol[len - 17] != 'h' || !has_hex_tail(symbol, len - 16) {
        return vstd::slice::slice_to_vec(symbol);
    }
    proof {
        reveal_strlit("::");
        reveal_strlit("_$");
    }
    let hashless = slice_subrange(symbol, 0, len - 17);
    let path = if ends_with(hashless, "::") {
        slice_subrange(hashless, 0, hashless.len() - 2)
    } else {
        hashless
    };
    if starts_with(path, "_$") {
        unescape(slice_subrange(path, 1, path.len()))
    } else {
        unescape(path)
    }
}

// ---------------------------------------------------------------------------
// Functions
// ---------------------------------------------------------------------------

/// Where the parameters of a function begin from position `at` on, or the end. `depth` brackets
/// are open, and `after_dot` is the position behind the last dot. A bracket behind a dot belongs
/// to a receiver, and an anonymous namespace is no parameter list.
pub open spec fn parameters_at(chars: Seq<char>, at: int, depth: nat, after_dot: int) -> int
    decreases chars.len() - at,
{
    if at >= chars.len() {
        chars.len() as int
    } else {
        let c = chars[at];
        let shallower = if depth > 0 {
            (depth - 1) as nat
        } else {
            0
        };
        if c == '<' || c == '{' || c == '[' {
            parameters_at(chars, at + 1, depth + 1, after_dot)
        } else if c == '>' || c == '}' || c == ']' || c == ')' {
            parameters_at(chars, at + 1, shallower, after_dot)
        } else if c == '(' {
            if depth == 0 && after_dot != at && !stands_at(chars, at, "(anonymous namespace)"@) {
                at
            } else {
                parameters_at(chars, at + 1, depth + 1, after_dot)
            }
        } else if c == '.' {
            parameters_at(chars, at + 1, depth, at + 1)
        } else {
            parameters_at(chars, at + 1, depth, after_dot)
        }
    }
}

/// A semicolon becomes a colon.
pub open spec fn tidy_char(c: char) -> char {
    if c == ';' {
        ':'
    } else {
        c
    }
}

/// A function without its parameters, and with colons in place of semicolons.
pub open spec fn tidied(chars: Seq<char>) -> Seq<char> {
    chars.subrange(0, parameters_at(chars, 0, 0, -1)).map_values(|c: char| tidy_char(c))
}

fn find_parameters(chars: &[char]) -> (end: usize)
    ensures
        end == parameters_at(chars@, 0, 0, -1),
        end <= chars.len(),
{
    let mut at: usize = 0;
    let mut depth: usize = 0;
    let mut after_dot: Option<usize> = None;
    let namespace = chars_of("(anonymous namespace)");
    let ghost dot: int = -1;
    while at < chars.len()
        invariant
            at <= chars.len(),
            depth <= at,
            namespace@ == "(anonymous namespace)"@,
            dot == match after_dot {
                Some(position) => position as int,
                None => -1,
            },
            parameters_at(chars@, 0, 0, -1) == parameters_at(chars@, at as int, depth as nat, dot),
        decreases chars.len() - at,
    {
        let c: char = chars[at];
        if c == '<' || c == '{' || c == '[' {
            depth += 1;
        } else if c == '>' || c == '}' || c == ']' || c == ')' {
            if depth > 0 {
                depth -= 1;
            }
        } else if c == '(' {
            let is_go_function = match after_dot {
                Some(position) => position == at,
                None => false,
            };
            if depth == 0 && !is_go_function && !matches_at(chars, at, namespace.as_slice()) {
                return at;
            }
            depth += 1;
        } else if c == '.' {
            after_dot = Some(at + 1);
            proof {
                dot = at + 1;
            }
        }
        at += 1;
    }
    at
}

fn tidy_inferno_perf_generic(chars: &[char]) -> (text: Vec<char>)
    ensures
        text@ == tidied(chars@),
{
    let end: usize = find_parameters(chars);
    let mut text: Vec<char> = Vec::with_capacity(end);
    let mut i: usize = 0;
    while i < end
        invariant
            i <= end <= chars.len(),
            text@.len() == i,
            forall|j: int| 0 <= j < i ==> #[trigger] text@[j] == tidy_char(chars@[j]),
        decreases end - i,
    {
        if chars[i] == ';' {
            text.push(':');
        } else {
            text.push(chars[i]);
        }
        i += 1;
    }
    assert(text@ =~= tidied(chars@));
    text
}

/// A part of an inlined chain behind the first one is marked as inlined, unless it is already.
pub open spec fn inlined(part: Seq<char>, first: bool) -> Seq<char> {
    if !first && !holds_text(part, "_[i]"@) {
        part + "_[i]"@
    } else {
        part
    }
}

/// A rendered stack with the parts of an inlined chain from position `from` on.
pub open spec fn with_parts(
    rendered: Seq<char>,
    chars: Seq<char>,
    from: int,
    first: bool,
) -> Seq<char>
    decreases chars.len() - from,
{
    let end = first_at(chars, "->"@, from);
    let part = if from <= end {
        chars.subrange(from, end)
    } else {
        Seq::empty()
    };
    let appended = with_label(rendered, inlined(tidied(part), first));
    if end + 2 > chars.len() || end < from {
        appended
    } else {
        with_parts(appended, chars, end + 2, false)
    }
}

/// A rendered stack with a symbol: without its offset, decoded, without parameters, and with the
/// functions of an inlined chain as frames of their own. A symbol that begins with a bracket is
/// left out.
pub open spec fn with_function(rendered: Seq<char>, frame: Seq<char>) -> Seq<char> {
    let symbol = without_offset(frame);
    if symbol.len() > 0 && symbol[0] == '(' {
        rendered
    } else {
        with_parts(rendered, demangled(symbol), 0, true)
    }
}

/// Appends a symbol to a rendered stack.
pub fn append_inferno_perf_raw_function(rendered: &mut String, frame: &str)
    ensures
        final(rendered)@ == with_function(old(rendered)@, frame@),
{
    let chars = chars_of(frame);
    let symbol = drop_offset(chars.as_slice());
    if symbol.len() > 0 && symbol[0] == '(' {
        return;
    }
    proof {
        reveal_strlit("->");
    }
    let fixed = fix_partially_demangled_rust_symbol(symbol);
    let ghost whole = with_function(rendered@, frame@);
    let mut from: usize = 0;
    let mut first = true;
    loop
        invariant_except_break
            from <= fixed@.len(),
            "->"@.len() == 2,
            whole == with_parts(rendered@, fixed@, from as int, first),
        ensures
            rendered@ == whole,
        decreases fixed@.len() - from,
    {
        let end: usize = find_text(fixed.as_slice(), "->", from);
        let mut part = tidy_inferno_perf_generic(slice_subrange(fixed.as_slice(), from, end));
        if !first && !contains_text(part.as_slice(), "_[i]") {
            let mut mark = chars_of("_[i]");
            part.append(&mut mark);
        }
        append_separator(rendered);
        escape_chars_into(rendered, part.as_slice());
        if end == fixed.len() {
            break ;
        }
        from = end + 2;
        first = false;
    }
}

/// A rendered stack of the first `count` symbols.
pub open spec fn rendered_functions(frames: Seq<Seq<char>>, count: int) -> Seq<char>
    decreases count,
{
    if count <= 0 {
        Seq::empty()
    } else {
        with_function(rendered_functions(frames, count - 1), frames[count - 1])
    }
}

/// Renders a stack of symbols.
#[must_use]
pub fn render_inferno_perf_raw_stack(frames: &[&str]) -> (rendered: String)
    ensures
        rendered@ == rendered_functions(views(frames@), frames@.len() as int),
{
    let mut rendered = String::new();
    let mut i: usize = 0;
    while i < frames.len()
        invariant
            i <= frames.len(),
            rendered@ == rendered_functions(views(frames@), i as int),
        decreases frames.len() - i,
    {
        append_inferno_perf_raw_function(&mut rendered, frames[i]);
        assert(views(frames@)[i as int] == frames@[i as int]@);
        i += 1;
    }
    rendered
}

/// The line of a stack of symbols.
#[must_use]
pub fn render_inferno_perf_folded_stack(frames: &[&str], count: u64) -> (rendered: String)
    ensures
        rendered@ == folded_line(rendered_functions(views(frames@), frames@.len() as int), count),
{
    let mut rendered = render_inferno_perf_raw_stack(frames);
    append_count(&mut rendered, count);
    rendered
}

// ---------------------------------------------------------------------------
// Laws
// ---------------------------------------------------------------------------

/// Whether every semicolon stands behind a backslash, and no line ends.
pub open spec fn stays_one_frame(text: Seq<char>) -> bool {
    forall|i: int|
        0 <= i < text.len() ==> (#[trigger] text[i] == ';' ==> i > 0 && text[i - 1] == '\\')
            && text[i] != '\n' && text[i] != '\r'
}

/// An escaped frame neither separates frames nor ends the line.
pub proof fn escaping_keeps_one_frame(frame: Seq<char>)
    ensures
        stays_one_frame(escaped(frame)),
    decreases frame.len(),
{
    if frame.len() > 0 {
        escaping_keeps_one_frame(frame.drop_last());
        let start = escaped(frame.drop_last());
        let end = escaped_char(frame.last());
        assert forall|i: int| 0 <= i < escaped(frame).len() implies (
        #[trigger] escaped(frame)[i] == ';' ==> i > 0 && escaped(frame)[i - 1] == '\\')
            && escaped(frame)[i] != '\n' && escaped(frame)[i] != '\r' by {
            if i < start.len() {
                assert(escaped(frame)[i] == start[i]);
                if start[i] == ';' {
                    assert(escaped(frame)[i - 1] == start[i - 1]);
                }
            } else {
                assert(escaped(frame)[i] == end[i - start.len()]);
            }
        }
    }
}

/// A frame without semicolons and line ends is kept as it is.
pub proof fn plain_frames_stay(frame: Seq<char>)
    requires
        forall|i: int|
            0 <= i < frame.len() ==> #[trigger] frame[i] != ';' && frame[i] != '\n' && frame[i]
                != '\r',
    ensures
        escaped(frame) == frame,
    decreases frame.len(),
{
    if frame.len() > 0 {
        plain_frames_stay(frame.drop_last());
        assert(escaped(frame) =~= frame);
    }
}

/// What a bracket adds to the number of open ones.
pub open spec fn bracket_step(c: char) -> int {
    if c == '<' || c == '{' || c == '[' || c == '(' {
        1
    } else if c == '>' || c == '}' || c == ']' || c == ')' {
        -1
    } else {
        0
    }
}

/// How many more brackets a text opens than it closes.
pub open spec fn opened(chars: Seq<char>) -> int
    decreases chars.len(),
{
    if chars.len() == 0 {
        0
    } else {
        opened(chars.drop_last()) + bracket_step(chars.last())
    }
}

/// Whether a parameter list begins at a position: there is a round bracket, no bracket in front of
/// it is still open (no stretch that ends there opens more brackets than it closes), it is not the
/// receiver of a method, which stands behind a dot, and not an anonymous namespace.
pub open spec fn begins_parameters(chars: Seq<char>, at: int) -> bool {
    &&& chars[at] == '('
    &&& forall|from: int| 0 <= from <= at ==> opened(#[trigger] chars.subrange(from, at)) <= 0
    &&& at > 0 ==> chars[at - 1] != '.'
    &&& !stands_at(chars, at, "(anonymous namespace)"@)
}

proof fn parameters_begin_behind(
    chars: Seq<char>,
    at: int,
    depth: nat,
    after_dot: int,
    deepest: int,
)
    requires
        0 <= at <= chars.len(),
        0 <= deepest <= at,
        opened(chars.subrange(deepest, at)) == depth,
        forall|from: int| 0 <= from <= at ==> opened(#[trigger] chars.subrange(from, at)) <= depth,
        after_dot <= at,
        after_dot == at <==> at > 0 && chars[at - 1] == '.',
    ensures
        at <= parameters_at(chars, at, depth, after_dot) <= chars.len(),
        forall|i: int|
            at <= i < parameters_at(chars, at, depth, after_dot) ==> !#[trigger] begins_parameters(
                chars,
                i,
            ),
        parameters_at(chars, at, depth, after_dot) < chars.len() ==> begins_parameters(
            chars,
            parameters_at(chars, at, depth, after_dot),
        ),
    decreases chars.len() - at,
{
    if at < chars.len() {
        let c = chars[at];
        if c == '(' && depth == 0 && after_dot != at && !stands_at(
            chars,
            at,
            "(anonymous namespace)"@,
        ) {
            assert(begins_parameters(chars, at));
        } else {
            assert(!begins_parameters(chars, at)) by {
                if depth > 0 {
                    assert(opened(chars.subrange(deepest, at)) > 0);
                }
            }
            assert forall|from: int| 0 <= from <= at implies opened(
                #[trigger] chars.subrange(from, at + 1),
            ) == opened(chars.subrange(from, at)) + bracket_step(c) by {
                assert(chars.subrange(from, at + 1).drop_last() =~= chars.subrange(from, at));
            }
            assert(chars.subrange(at + 1, at + 1) =~= Seq::empty());
            assert(opened(chars.subrange(at + 1, at + 1)) == 0);
            let further = depth + bracket_step(c);
            let (next, place) = if further < 0 {
                (0nat, at + 1)
            } else {
                (further as nat, deepest)
            };
            let dot = if c == '.' {
                at + 1
            } else {
                after_dot
            };
            assert(opened(chars.subrange(place, at + 1)) == next);
            parameters_begin_behind(chars, at + 1, next, dot, place);
        }
    }
}

/// A function is shown up to the first place where a parameter list begins, and as a whole where
/// there is none; semicolons are shown as colons, and nothing else is changed.
pub proof fn functions_are_cut_at_their_parameters(chars: Seq<char>)
    ensures
        tidied(chars).len() <= chars.len(),
        forall|i: int|
            0 <= i < tidied(chars).len() ==> #[trigger] tidied(chars)[i] == if chars[i] == ';' {
                ':'
            } else {
                chars[i]
            },
        forall|i: int|
            0 <= i < tidied(chars).len() ==> !#[trigger] begins_parameters(chars, i),
        tidied(chars).len() < chars.len() ==> begins_parameters(chars, tidied(chars).len() as int),
{
    assert(chars.subrange(0, 0) =~= Seq::empty());
    parameters_begin_behind(chars, 0, 0, -1, 0);
}

/// Whether a text holds neither brackets nor dots nor semicolons.
pub open spec fn is_plain_name(chars: Seq<char>) -> bool {
    forall|i: int|
        0 <= i < chars.len() ==> bracket_step(#[trigger] chars[i]) == 0 && chars[i] != '.'
            && chars[i] != ';'
}

proof fn plain_names_open_nothing(chars: Seq<char>)
    requires
        is_plain_name(chars),
    ensures
        opened(chars) == 0,
    decreases chars.len(),
{
    if chars.len() > 0 {
        assert(bracket_step(chars[chars.len() - 1]) == 0);
        plain_names_open_nothing(chars.drop_last());
    }
}

proof fn opened_adds_up(left: Seq<char>, right: Seq<char>)
    ensures
        opened(left + right) == opened(left) + opened(right),
    decreases right.len(),
{
    if right.len() > 0 {
        opened_adds_up(left, right.drop_last());
        assert((left + right).drop_last() =~= left + right.drop_last());
    } else {
        assert(left + right =~= left);
    }
}

/// Parameters are cut off behind brackets that are closed again: whatever stands between angle
/// brackets in the name of a function, its parameter list begins at the next round bracket.
pub proof fn parameters_behind_closed_brackets_are_cut(
    front: Seq<char>,
    inner: Seq<char>,
    back: Seq<char>,
    rest: Seq<char>,
)
    requires
        is_plain_name(front),
        is_plain_name(inner),
        is_plain_name(back),
        !begins_with(seq!['('] + rest, "(anonymous namespace)"@),
    ensures
        tidied(front + seq!['<'] + inner + seq!['>'] + back + seq!['('] + rest) == front
            + seq!['<'] + inner + seq!['>'] + back,
        tidied(front + seq!['('] + rest) == front,
        tidied(front) == front,
{
    let name = front + seq!['<'] + inner + seq!['>'] + back;
    let closed = seq!['>'] + back;
    let opening = seq!['<'] + inner;
    assert(seq!['>'].drop_last() =~= Seq::empty());
    assert(seq!['<'].drop_last() =~= Seq::empty());
    assert(opened(seq!['>']) == -1) by {
        assert(opened(Seq::<char>::empty()) == 0);
    }
    assert(opened(seq!['<']) == 1) by {
        assert(opened(Seq::<char>::empty()) == 0);
    }
    assert forall|from: int| 0 <= from <= name.len() implies opened(
        #[trigger] name.subrange(from, name.len() as int),
    ) <= 0 by {
        let stretch = name.subrange(from, name.len() as int);
        let a = front.len() as int;
        let b = a + 1 + inner.len();
        plain_names_open_nothing(back);
        opened_adds_up(seq!['>'], back);
        assert(opened(closed) == -1);
        if from > b {
            let part = back.subrange(from - b - 1, back.len() as int);
            assert(stretch =~= part);
            plain_names_open_nothing(part);
        } else if from > a {
            let part = inner.subrange(from - a - 1, inner.len() as int);
            assert(stretch =~= part + closed);
            plain_names_open_nothing(part);
            opened_adds_up(part, closed);
        } else {
            let part = front.subrange(from, front.len() as int);
            assert(stretch =~= part + (opening + closed));
            plain_names_open_nothing(part);
            plain_names_open_nothing(inner);
            opened_adds_up(seq!['<'], inner);
            opened_adds_up(opening, closed);
            opened_adds_up(part, opening + closed);
        }
    }
    assert forall|i: int| 0 <= i < name.len() implies #[trigger] name[i] != '(' && name[i] != '.'
        && name[i] != ';' by {
        let a = front.len() as int;
        let b = a + 1 + inner.len();
        if i < a {
            assert(bracket_step(front[i]) == 0);
        } else if a < i < b {
            assert(bracket_step(inner[i - a - 1]) == 0);
        } else if i > b {
            assert(bracket_step(back[i - b - 1]) == 0);
        }
    }
    assert(front + seq!['<'] + inner + seq!['>'] + back + seq!['('] + rest =~= name + (seq!['(']
        + rest));
    names_in_front_of_parameters_stay(name, rest);
    assert forall|from: int| 0 <= from <= front.len() implies opened(
        #[trigger] front.subrange(from, front.len() as int),
    ) <= 0 by {
        plain_names_open_nothing(front.subrange(from, front.len() as int));
    }
    assert forall|i: int| 0 <= i < front.len() implies #[trigger] front[i] != '(' && front[i]
        != '.' && front[i] != ';' by {
        assert(bracket_step(front[i]) == 0);
    }
    assert(front + seq!['('] + rest =~= front + (seq!['('] + rest));
    names_in_front_of_parameters_stay(front, rest);
    functions_are_cut_at_their_parameters(front);
    assert(tidied(front) =~= front);
}

proof fn names_in_front_of_parameters_stay(name: Seq<char>, rest: Seq<char>)
    requires
        forall|from: int|
            0 <= from <= name.len() ==> opened(
                #[trigger] name.subrange(from, name.len() as int),
            ) <= 0,
        forall|i: int|
            0 <= i < name.len() ==> #[trigger] name[i] != '(' && name[i] != '.' && name[i] != ';',
        !begins_with(seq!['('] + rest, "(anonymous namespace)"@),
    ensures
        tidied(name + (seq!['('] + rest)) == name,
{
    let chars = name + (seq!['('] + rest);
    let at = name.len() as int;
    let namespace = "(anonymous namespace)"@;
    functions_are_cut_at_their_parameters(chars);
    let kept = tidied(chars);
    if kept.len() < at {
        assert(begins_parameters(chars, kept.len() as int));
        assert(chars[kept.len() as int] == name[kept.len() as int]);
    }
    assert(begins_parameters(chars, at)) by {
        assert forall|from: int| 0 <= from <= at implies opened(
            #[trigger] chars.subrange(from, at),
        ) <= 0 by {
            assert(chars.subrange(from, at) =~= name.subrange(from, at));
        }
        if at > 0 {
            assert(chars[at - 1] == name[at - 1]);
        }
        if stands_at(chars, at, namespace) {
            assert(chars.subrange(at, at + namespace.len()) =~= (seq!['('] + rest).subrange(
                0,
                namespace.len() as int,
            ));
        }
    }
    assert forall|i: int| 0 <= i < at implies kept[i] == name[i] by {
        assert(chars[i] == name[i]);
    }
    assert(kept =~= name);
}

/// An offset in hexadecimal digits behind a symbol is left out, and nothing else: a symbol without
/// one is kept as it is.
pub proof fn offsets_are_left_out(symbol: Seq<char>, digits: Seq<char>)
    requires
        digits.len() > 0,
        forall|i: int| 0 <= i < digits.len() ==> is_hex_digit(#[trigger] digits[i]),
    ensures
        without_offset(symbol + "+0x"@ + digits) == symbol,
        !holds_text(symbol, "+0x"@) ==> without_offset(symbol) == symbol,
        forall|c: char|
            !is_hex_digit(c) ==> without_offset(#[trigger] symbol.push(c)) == symbol.push(c),
{
    reveal_strlit("+0x");
    let frame = symbol + "+0x"@ + digits;
    assert("+0x"@.drop_first() =~= seq!['0', 'x']);
    assert(is_free_of("+0x"@.drop_first(), '+'));
    assert forall|i: int| 0 <= i < digits.len() implies #[trigger] digits[i] != '+' by {
        assert(is_hex_digit(digits[i]));
    }
    text_is_found_last(symbol, "+0x"@, digits);
    let start = symbol.len() + 3;
    assert forall|i: int| start <= i < frame.len() implies is_hex_digit(#[trigger] frame[i]) by {
        assert(frame[i] == digits[i - start]);
    }
    assert(frame.subrange(0, symbol.len() as int) =~= symbol);
    last_at_is_last(symbol, "+0x"@, symbol.len() as int);
    assert forall|c: char| !is_hex_digit(c) implies without_offset(#[trigger] symbol.push(c))
        == symbol.push(c) by {
        let longer = symbol.push(c);
        if let Some(at) = last_at(longer, "+0x"@, longer.len() as int) {
            assert(longer[longer.len() - 1] == c);
            assert(!hex_tail(longer, at + 3));
        }
    }
}

proof fn escapes_behind(front: Seq<char>, chars: Seq<char>, at: int, index: int)
    requires
        0 <= at <= chars.len(),
        0 <= index,
    ensures
        escape_from(front + chars, front.len() + at, index) == escape_from(chars, at, index),
    decreases ESCAPE_COUNT - index,
{
    if index < ESCAPE_COUNT {
        let code = escape_code(index).0;
        if at + code.len() <= chars.len() {
            assert((front + chars).subrange(front.len() + at, front.len() + at + code.len())
                =~= chars.subrange(at, at + code.len()));
        }
        escapes_behind(front, chars, at, index + 1);
    }
}

proof fn unescaped_behind(front: Seq<char>, chars: Seq<char>, from: int)
    requires
        0 <= from <= chars.len(),
    ensures
        unescaped(front + chars, front.len() + from) == unescaped(chars, from),
    decreases chars.len() - from,
{
    if from < chars.len() {
        let whole = front + chars;
        let at = front.len() + from;
        assert(whole[at] == chars[from]);
        if chars[from] == '.' {
            if from + 1 < chars.len() {
                assert(whole[at + 1] == chars[from + 1]);
                unescaped_behind(front, chars, from + 2);
            }
            unescaped_behind(front, chars, from + 1);
        } else if chars[from] == '$' {
            escapes_behind(front, chars, from, 0);
            match escape_from(chars, from, 0) {
                Some((len, c)) => {
                    if 0 < len <= chars.len() - from {
                        unescaped_behind(front, chars, from + len);
                    }
                },
                None => {
                    assert(whole.subrange(at, whole.len() as int) =~= chars.subrange(
                        from,
                        chars.len() as int,
                    ));
                },
            }
        } else {
            unescaped_behind(front, chars, from + 1);
        }
    }
}

/// Characters that begin no escape are kept, and what stands behind them is decoded; two dots
/// stand for two colons, and a dot alone for itself.
pub proof fn names_are_decoded_piece_by_piece(plain: Seq<char>, rest: Seq<char>)
    requires
        is_free_of(plain, '.'),
        is_free_of(plain, '$'),
    ensures
        unescaped(plain + rest, 0) == plain + unescaped(rest, 0),
        unescaped(plain, 0) == plain,
        unescaped(seq!['.', '.'] + rest, 0) == seq![':', ':'] + unescaped(rest, 0),
        rest.len() > 0 && rest[0] != '.' ==> unescaped(seq!['.'] + rest, 0) == seq!['.']
            + unescaped(rest, 0),
    decreases plain.len(),
{
    let dots = seq!['.', '.'] + rest;
    unescaped_behind(seq!['.', '.'], rest, 0);
    assert(dots[0] == '.' && dots[1] == '.');
    let dot = seq!['.'] + rest;
    unescaped_behind(seq!['.'], rest, 0);
    if rest.len() > 0 {
        assert(dot[1] == rest[0]);
    }
    if plain.len() > 0 {
        let less = plain.drop_first();
        let first = seq![plain[0]];
        assert forall|i: int| 0 <= i < less.len() implies #[trigger] less[i] != '.' && less[i]
            != '$' by {
            assert(less[i] == plain[i + 1]);
        }
        names_are_decoded_piece_by_piece(less, rest);
        assert(plain + rest =~= first + (less + rest));
        assert(plain =~= first + less);
        unescaped_behind(first, less + rest, 0);
        unescaped_behind(first, less, 0);
        assert(unescaped(plain + rest, 0) =~= plain + unescaped(rest, 0));
    } else {
        assert(plain + rest =~= rest);
        assert(plain + unescaped(rest, 0) =~= unescaped(rest, 0));
    }
}

proof fn no_other_escape(text: Seq<char>, index: int, from: int)
    requires
        0 <= from <= index < ESCAPE_COUNT,
        stands_at(text, 0, escape_code(index).0),
        forall|other: int|
            from <= other < index ==> !stands_at(text, 0, (#[trigger] escape_code(other)).0),
    ensures
        escape_from(text, 0, from) == Some(
            (escape_code(index).0.len() as int, escape_code(index).1),
        ),
    decreases index - from,
{
    if from < index {
        assert(!stands_at(text, 0, escape_code(from).0));
        no_other_escape(text, index, from + 1);
    }
}

proof fn escape_is_replaced(index: int, rest: Seq<char>)
    requires
        0 <= index < ESCAPE_COUNT,
    ensures
        unescaped(escape_code(index).0 + rest, 0) == seq![escape_code(index).1] + unescaped(
            rest,
            0,
        ),
{
    reveal_strlit("$SP$");
    reveal_strlit("$BP$");
    reveal_strlit("$RF$");
    reveal_strlit("$LT$");
    reveal_strlit("$GT$");
    reveal_strlit("$LP$");
    reveal_strlit("$RP$");
    reveal_strlit("$C$");
    reveal_strlit("$u7e$");
    reveal_strlit("$u20$");
    reveal_strlit("$u27$");
    reveal_strlit("$u3d$");
    reveal_strlit("$u5b$");
    reveal_strlit("$u5d$");
    reveal_strlit("$u7b$");
    reveal_strlit("$u7d$");
    reveal_strlit("$u3b$");
    reveal_strlit("$u2b$");
    reveal_strlit("$u21$");
    reveal_strlit("$u22$");
    let code = escape_code(index).0;
    let text = code + rest;
    assert(text.subrange(0, code.len() as int) =~= code);
    assert forall|other: int| 0 <= other < index implies !stands_at(
        text,
        0,
        (#[trigger] escape_code(other)).0,
    ) by {
        let wrong = escape_code(other).0;
        if stands_at(text, 0, wrong) {
            let part = text.subrange(0, wrong.len() as int);
            assert(part[1] == text[1] && part[2] == text[2]);
            assert(text[1] == code[1] && text[2] == code[2]);
            if index > 7 && other > 7 {
                assert(part[3] == text[3]);
                assert(text[3] == code[3]);
            }
        }
    }
    no_other_escape(text, index, 0);
    assert(text[0] == '$');
    unescaped_behind(code, rest, 0);
}

/// Between dollar signs stands the name of a character, which is replaced by that character.
pub proof fn escapes_are_replaced(rest: Seq<char>)
    ensures
        unescaped("$SP$"@ + rest, 0) == seq!['@'] + unescaped(rest, 0),
        unescaped("$BP$"@ + rest, 0) == seq!['*'] + unescaped(rest, 0),
        unescaped("$RF$"@ + rest, 0) == seq!['&'] + unescaped(rest, 0),
        unescaped("$LT$"@ + rest, 0) == seq!['<'] + unescaped(rest, 0),
        unescaped("$GT$"@ + rest, 0) == seq!['>'] + unescaped(rest, 0),
        unescaped("$LP$"@ + rest, 0) == seq!['('] + unescaped(rest, 0),
        unescaped("$RP$"@ + rest, 0) == seq![')'] + unescaped(rest, 0),
        unescaped("$C$"@ + rest, 0) == seq![','] + unescaped(rest, 0),
        unescaped("$u7e$"@ + rest, 0) == seq!['~'] + unescaped(rest, 0),
        unescaped("$u20$"@ + rest, 0) == seq![' '] + unescaped(rest, 0),
        unescaped("$u27$"@ + rest, 0) == seq!['\''] + unescaped(rest, 0),
        unescaped("$u3d$"@ + rest, 0) == seq!['='] + unescaped(rest, 0),
        unescaped("$u5b$"@ + rest, 0) == seq!['['] + unescaped(rest, 0),
        unescaped("$u5d$"@ + rest, 0) == seq![']'] + unescaped(rest, 0),
        unescaped("$u7b$"@ + rest, 0) == seq!['{'] + unescaped(rest, 0),
        unescaped("$u7d$"@ + rest, 0) == seq!['}'] + unescaped(rest, 0),
        unescaped("$u3b$"@ + rest, 0) == seq![';'] + unescaped(rest, 0),
        unescaped("$u2b$"@ + rest, 0) == seq!['+'] + unescaped(rest, 0),
        unescaped("$u21$"@ + rest, 0) == seq!['!'] + unescaped(rest, 0),
        unescaped("$u22$"@ + rest, 0) == seq!['"'] + unescaped(rest, 0),
{
    reveal_strlit("$SP$");
    reveal_strlit("$BP$");
    reveal_strlit("$RF$");
    reveal_strlit("$LT$");
    reveal_strlit("$GT$");
    reveal_strlit("$LP$");
    reveal_strlit("$RP$");
    reveal_strlit("$C$");
    reveal_strlit("$u7e$");
    reveal_strlit("$u20$");
    reveal_strlit("$u27$");
    reveal_strlit("$u3d$");
    reveal_strlit("$u5b$");
    reveal_strlit("$u5d$");
    reveal_strlit("$u7b$");
    reveal_strlit("$u7d$");
    reveal_strlit("$u3b$");
    reveal_strlit("$u2b$");
    reveal_strlit("$u21$");
    reveal_strlit("$u22$");
    escape_is_replaced(0, rest);
    escape_is_replaced(1, rest);
    escape_is_replaced(2, rest);
    escape_is_replaced(3, rest);
    escape_is_replaced(4, rest);
    escape_is_replaced(5, rest);
    escape_is_replaced(6, rest);
    escape_is_replaced(7, rest);
    escape_is_replaced(8, rest);
    escape_is_replaced(9, rest);
    escape_is_replaced(10, rest);
    escape_is_replaced(11, rest);
    escape_is_replaced(12, rest);
    escape_is_replaced(13, rest);
    escape_is_replaced(14, rest);
    escape_is_replaced(15, rest);
    escape_is_replaced(16, rest);
    escape_is_replaced(17, rest);
    escape_is_replaced(18, rest);
    escape_is_replaced(19, rest);
}

/// The hash behind the name of a Rust symbol is left out, with the colons in front of it and the
/// underscore in front of a name that begins with an escape; what is left is decoded.
pub proof fn hashes_are_left_out(path: Seq<char>, hash: Seq<char>)
    requires
        hash.len() == 16,
        forall|i: int| 0 <= i < hash.len() ==> is_hex_digit(#[trigger] hash[i]),
    ensures
        !begins_with(path, "_$"@) ==> demangled(path + "::"@ + (seq!['h'] + hash)) == unescaped(
            path,
            0,
        ),
        demangled("_$"@ + path + "::"@ + (seq!['h'] + hash)) == unescaped(seq!['$'] + path, 0),
{
    reveal_strlit("::");
    reveal_strlit("_$");
    hash_is_left_out(path, hash);
    let marked = "_$"@ + path;
    hash_is_left_out(marked, hash);
    assert(marked.subrange(0, 2) =~= "_$"@);
    assert(marked.subrange(1, marked.len() as int) =~= seq!['$'] + path);
}

proof fn hash_is_left_out(path: Seq<char>, hash: Seq<char>)
    requires
        hash.len() == 16,
        forall|i: int| 0 <= i < hash.len() ==> is_hex_digit(#[trigger] hash[i]),
    ensures
        has_rust_hash(path + "::"@ + (seq!['h'] + hash)),
        rust_path(path + "::"@ + (seq!['h'] + hash)) == if begins_with(path, "_$"@) {
            path.subrange(1, path.len() as int)
        } else {
            path
        },
{
    reveal_strlit("::");
    reveal_strlit("_$");
    let symbol = path + "::"@ + (seq!['h'] + hash);
    let start = symbol.len() - 16;
    assert forall|i: int| start <= i < symbol.len() implies is_hex_digit(#[trigger] symbol[i]) by {
        assert(symbol[i] == hash[i - start]);
    }
    let hashless = path + "::"@;
    assert(symbol.subrange(0, symbol.len() - 17) =~= hashless);
    ending_is_being_behind(hashless, "::"@);
    assert(hashless.subrange(0, hashless.len() - 2) =~= path);
}

proof fn parts_behind(
    rendered: Seq<char>,
    front: Seq<char>,
    chars: Seq<char>,
    from: int,
    first: bool,
)
    requires
        0 <= from <= chars.len(),
    ensures
        with_parts(rendered, front + chars, front.len() + from, first) == with_parts(
            rendered,
            chars,
            from,
            first,
        ),
    decreases chars.len() - from,
{
    let whole = front + chars;
    first_at_behind(front, chars, "->"@, from);
    first_at_is_first(chars, "->"@, from);
    let end = first_at(chars, "->"@, from);
    assert(whole.subrange(front.len() + from, front.len() + end) =~= chars.subrange(from, end));
    if end + 2 <= chars.len() {
        let appended = with_label(
            rendered,
            inlined(tidied(chars.subrange(from, end)), first),
        );
        parts_behind(appended, front, chars, end + 2, false);
    }
}

/// The functions of an inlined chain are frames of their own: each arrow ends a frame, and each
/// frame behind the first is marked as inlined unless its name says so. A name without arrows is
/// one frame.
pub proof fn inlined_chains_are_split(
    rendered: Seq<char>,
    part: Seq<char>,
    rest: Seq<char>,
    first: bool,
)
    requires
        forall|i: int|
            0 <= i < part.len() ==> !#[trigger] stands_at(part + "->"@ + rest, i, "->"@),
    ensures
        with_parts(rendered, part + "->"@ + rest, 0, first) == with_parts(
            with_label(
                rendered,
                if first || holds_text(tidied(part), "_[i]"@) {
                    tidied(part)
                } else {
                    tidied(part) + "_[i]"@
                },
            ),
            rest,
            0,
            false,
        ),
        with_parts(rendered, part, 0, first) == with_label(
            rendered,
            if first || holds_text(tidied(part), "_[i]"@) {
                tidied(part)
            } else {
                tidied(part) + "_[i]"@
            },
        ),
{
    reveal_strlit("->");
    let chars = part + "->"@ + rest;
    let front = part + "->"@;
    first_at_is_first(chars, "->"@, 0);
    text_stands_between(part, "->"@, rest);
    assert(first_at(chars, "->"@, 0) == part.len());
    assert(chars.subrange(0, part.len() as int) =~= part);
    let appended = with_label(rendered, inlined(tidied(part), first));
    parts_behind(appended, front, rest, 0, false);
    first_at_is_first(part, "->"@, 0);
    let end = first_at(part, "->"@, 0);
    if end < part.len() {
        assert(chars.subrange(end, end + 2) =~= part.subrange(end, end + 2));
        assert(stands_at(chars, end, "->"@));
    }
    assert(part.subrange(0, part.len() as int) =~= part);
}

/// A symbol that begins with a bracket adds nothing to a stack; any other one without an offset,
/// a hash and arrows adds one frame, its name without the parameters.
pub proof fn symbols_become_frames(rendered: Seq<char>, symbol: Seq<char>)
    requires
        !holds_text(symbol, "+0x"@),
    ensures
        symbol.len() > 0 && symbol[0] == '(' ==> with_function(rendered, symbol) == rendered,
        !(symbol.len() > 0 && symbol[0] == '(') && !holds_text(symbol, "->"@) && !has_rust_hash(
            symbol,
        ) ==> with_function(rendered, symbol) == with_label(rendered, tidied(symbol)),
{
    reveal_strlit("->");
    offsets_are_left_out(symbol, seq!['0']);
    if !holds_text(symbol, "->"@) {
        first_at_is_first(symbol, "->"@, 0);
        let end = first_at(symbol, "->"@, 0);
        if end < symbol.len() {
            assert(stands_at(symbol, end, "->"@));
        }
        assert(symbol.subrange(0, symbol.len() as int) =~= symbol);
    }
}

/// Frames are escaped piece by piece: a semicolon gets a backslash in front of it, the end of a
/// line becomes a blank, and every other character stays.
pub proof fn frames_are_escaped_piece_by_piece(left: Seq<char>, right: Seq<char>, c: char)
    ensures
        escaped(left + right) == escaped(left) + escaped(right),
        escaped(seq![';']) == seq!['\\', ';'],
        escaped(seq!['\n']) == seq![' '],
        escaped(seq!['\r']) == seq![' '],
        c != ';' && c != '\n' && c != '\r' ==> escaped(seq![c]) == seq![c],
    decreases right.len(),
{
    assert(escaped(Seq::empty()) == Seq::<char>::empty());
    assert forall|d: char| escaped(#[trigger] seq![d]) == escaped_char(d) by {
        assert(seq![d].drop_last() =~= Seq::empty());
        assert(escaped(seq![d]) =~= escaped_char(d));
    }
    if right.len() > 0 {
        frames_are_escaped_piece_by_piece(left, right.drop_last(), c);
        assert((left + right).drop_last() =~= left + right.drop_last());
        assert(escaped(left + right) =~= escaped(left) + escaped(right));
    } else {
        assert(left + right =~= left);
        assert(escaped(left) + escaped(right) =~= escaped(left));
    }
}

proof fn escaping_keeps_text(frame: Seq<char>)
    requires
        frame.len() > 0,
    ensures
        escaped(frame).len() > 0,
{
    assert(escaped_char(frame.last()).len() > 0);
}

/// A stack is its frames with a semicolon between each two, in their order, and its line ends in
/// a blank and its count.
pub proof fn stacks_are_frames_between_semicolons(frames: Seq<Seq<char>>, count: u64)
    requires
        frames.len() > 0,
        frames[0].len() > 0,
    ensures
        folded_line(joined_frames(frames, frames.len() as int), count) == joined_with(
            frames.map_values(|frame: Seq<char>| escaped(frame)),
            seq![';'],
            frames.len() as int,
        ) + seq![' '] + decimal(count as nat),
{
    frames_are_joined_up_to(frames, frames.len() as int);
}

proof fn frames_are_joined_up_to(frames: Seq<Seq<char>>, count: int)
    requires
        0 < count <= frames.len(),
        frames[0].len() > 0,
    ensures
        joined_frames(frames, count) == joined_with(
            frames.map_values(|frame: Seq<char>| escaped(frame)),
            seq![';'],
            count,
        ),
        joined_frames(frames, count).len() > 0,
    decreases count,
{
    let texts = frames.map_values(|frame: Seq<char>| escaped(frame));
    if count == 1 {
        assert(joined_frames(frames, 0) == Seq::<char>::empty());
        assert(joined_frames(frames, 1) =~= escaped(frames[0]));
        escaping_keeps_text(frames[0]);
    } else {
        frames_are_joined_up_to(frames, count - 1);
        assert(joined_frames(frames, count) =~= joined_with(texts, seq![';'], count));
    }
}

} // verus!
