//! Text as sequences of characters: rendering of numbers, searching and splitting.

use vstd::prelude::*;
use vstd::slice::{slice_subrange, slice_to_vec};
use vstd::string::{StrSliceExecFns, StringExecFns};
use vstd::utf8::{decode_utf8, valid_utf8};

verus! {

broadcast use vstd::string::group_string_axioms;

// ---------------------------------------------------------------------------
// Results seen through their views
// ---------------------------------------------------------------------------

/// A fallible result with its success value and its error text seen as mathematical values.
pub open spec fn outcome<T: View>(result: Result<T, String>) -> Result<T::V, Seq<char>> {
    match result {
        Ok(value) => Ok(value@),
        Err(error) => Err(error@),
    }
}

/// The views of the items of a sequence.
pub open spec fn views<T: View>(items: Seq<T>) -> Seq<T::V> {
    Seq::new(items.len(), |i: int| items[i]@)
}

/// A successful sequence with `first` put before it; an error stays what it is.
pub open spec fn after<T>(first: Seq<T>, rest: Result<Seq<T>, Seq<char>>) -> Result<
    Seq<T>,
    Seq<char>,
> {
    match rest {
        Ok(items) => Ok(first + items),
        Err(error) => Err(error),
    }
}

// ---------------------------------------------------------------------------
// Searching
// ---------------------------------------------------------------------------

/// The first index from `from` on that holds `wanted`; the length where there is none.
pub open spec fn first_from<T>(items: Seq<T>, wanted: T, from: int) -> int
    decreases items.len() - from,
{
    if from >= items.len() {
        items.len() as int
    } else if items[from] == wanted {
        from
    } else {
        first_from(items, wanted, from + 1)
    }
}

/// Finds the first byte from `from` on that equals `wanted`.
pub fn find_byte(bytes: &[u8], wanted: u8, from: usize) -> (index: usize)
    requires
        from <= bytes.len(),
    ensures
        index == first_from(bytes@, wanted, from as int),
        from <= index <= bytes.len(),
{
    let mut index: usize = from;
    while index < bytes.len()
        invariant
            from <= index <= bytes.len(),
            first_from(bytes@, wanted, from as int) == first_from(bytes@, wanted, index as int),
        decreases bytes.len() - index,
    {
        if bytes[index] == wanted {
            return index;
        }
        index += 1;
    }
    index
}

// ---------------------------------------------------------------------------
// std functions on strings
// ---------------------------------------------------------------------------

/// `String::push` appends one character.
pub assume_specification[ String::push ](s: &mut String, c: char)
    ensures
        final(s)@ == old(s)@.push(c),
;

/// What `String::from_utf8_lossy` makes of a byte string.
pub uninterp spec fn utf8_lossy(bytes: Seq<u8>) -> Seq<char>;

/// Calls `String::from_utf8_lossy`. Bytes that are valid UTF-8 are decoded as they are; what
/// takes the place of invalid sequences is not spelled out, only that the text is a function
/// of the bytes.
#[verifier::external_body]
pub(crate) fn text_from_utf8_lossy(bytes: &[u8]) -> (text: String)
    ensures
        text@ == utf8_lossy(bytes@),
        valid_utf8(bytes@) ==> text@ == decode_utf8(bytes@),
{
    String::from_utf8_lossy(bytes).into_owned()
}

/// The message of the error that `str::from_utf8` reports for a byte string that is not UTF-8.
pub uninterp spec fn utf8_error(bytes: Seq<u8>) -> Seq<char>;

/// Calls `str::from_utf8`: valid UTF-8 is decoded, anything else gives the error's message.
#[verifier::external_body]
pub(crate) fn text_from_utf8(bytes: &[u8]) -> (result: Result<String, String>)
    ensures
        result is Ok <==> valid_utf8(bytes@),
        result matches Ok(text) ==> text@ == decode_utf8(bytes@),
        result matches Err(error) ==> error@ == utf8_error(bytes@),
{
    match std::str::from_utf8(bytes) {
        Ok(text) => Ok(text.to_string()),
        Err(error) => Err(error.to_string()),
    }
}

// ---------------------------------------------------------------------------
// Characters
// ---------------------------------------------------------------------------

/// The characters of a text.
pub fn chars_of(text: &str) -> (chars: Vec<char>)
    ensures
        chars@ == text@,
{
    let mut chars: Vec<char> = Vec::new();
    for c in it: text.chars()
        invariant
            it.seq() == text@,
            chars@ == text@.subrange(0, it.index() as int),
    {
        chars.push(c);
        assert(chars@ =~= text@.subrange(0, it.index() + 1));
    }
    assert(text@.subrange(0, text@.len() as int) =~= text@);
    chars
}

/// The text made of some characters.
pub fn text_of(chars: &[char]) -> (text: String)
    ensures
        text@ == chars@,
{
    let mut text = String::new();
    let mut i: usize = 0;
    while i < chars.len()
        invariant
            i <= chars.len(),
            text@ == chars@.subrange(0, i as int),
        decreases chars.len() - i,
    {
        text.push(chars[i]);
        i += 1;
        assert(text@ =~= chars@.subrange(0, i as int));
    }
    assert(chars@.subrange(0, i as int) =~= chars@);
    text
}

/// Whether a text stands at a position of some characters.
pub open spec fn stands_at(chars: Seq<char>, at: int, text: Seq<char>) -> bool {
    at + text.len() <= chars.len() && chars.subrange(at, at + text.len()) == text
}

/// Tells whether `text` stands at position `at` of the characters.
pub fn matches_at(chars: &[char], at: usize, text: &[char]) -> (found: bool)
    requires
        at <= chars.len(),
    ensures
        found == stands_at(chars@, at as int, text@),
{
    if text.len() > chars.len() - at {
        return false;
    }
    let mut i: usize = 0;
    while i < text.len()
        invariant
            i <= text.len(),
            at + text.len() <= chars.len(),
            chars@.subrange(at as int, at + i) == text@.subrange(0, i as int),
        decreases text.len() - i,
    {
        if chars[at + i] != text[i] {
            assert(chars@.subrange(at as int, at + text@.len())[i as int] != text@[i as int]);
            return false;
        }
        assert(chars@.subrange(at as int, at + i + 1) =~= chars@.subrange(at as int, at + i).push(
            chars@[at + i],
        ));
        assert(text@.subrange(0, i + 1) =~= text@.subrange(0, i as int).push(text@[i as int]));
        i += 1;
    }
    assert(text@.subrange(0, i as int) =~= text@);
    true
}

/// Whether a text begins with another.
pub open spec fn begins_with(text: Seq<char>, prefix: Seq<char>) -> bool {
    stands_at(text, 0, prefix)
}

/// Whether a text ends with another.
pub open spec fn ends_in(text: Seq<char>, suffix: Seq<char>) -> bool {
    suffix.len() <= text.len() && stands_at(text, text.len() - suffix.len(), suffix)
}

/// Tells whether some characters begin with a text.
pub fn starts_with(chars: &[char], prefix: &str) -> (found: bool)
    ensures
        found == begins_with(chars@, prefix@),
{
    matches_at(chars, 0, chars_of(prefix).as_slice())
}

/// Tells whether some characters end with a text.
pub fn ends_with(chars: &[char], suffix: &str) -> (found: bool)
    ensures
        found == ends_in(chars@, suffix@),
{
    let wanted = chars_of(suffix);
    wanted.len() <= chars.len() && matches_at(chars, chars.len() - wanted.len(), wanted.as_slice())
}

/// Tells whether two texts are the same.
pub fn same_text(left: &str, right: &str) -> (same: bool)
    ensures
        same == (left@ == right@),
{
    let left_chars = chars_of(left);
    let right_chars = chars_of(right);
    if left_chars.len() != right_chars.len() {
        return false;
    }
    let same = matches_at(left_chars.as_slice(), 0, right_chars.as_slice());
    assert(left@.subrange(0, left@.len() as int) =~= left@);
    same
}

// ---------------------------------------------------------------------------
// Searching
// ---------------------------------------------------------------------------

/// The first position from `from` on where a text stands, or the end of the characters.
pub open spec fn first_at(chars: Seq<char>, text: Seq<char>, from: int) -> int
    decreases chars.len() - from,
{
    if from >= chars.len() {
        chars.len() as int
    } else if stands_at(chars, from, text) {
        from
    } else {
        first_at(chars, text, from + 1)
    }
}

/// Finds the first position from `from` on where a text stands.
pub fn find_text(chars: &[char], text: &str, from: usize) -> (at: usize)
    requires
        from <= chars.len(),
    ensures
        at == first_at(chars@, text@, from as int),
        from <= at <= chars.len(),
        at < chars.len() ==> stands_at(chars@, at as int, text@),
{
    let wanted = chars_of(text);
    let mut at: usize = from;
    while at < chars.len()
        invariant
            from <= at <= chars.len(),
            wanted@ == text@,
            first_at(chars@, text@, from as int) == first_at(chars@, text@, at as int),
        decreases chars.len() - at,
    {
        if matches_at(chars, at, wanted.as_slice()) {
            return at;
        }
        at += 1;
    }
    at
}

/// The last position up to `upto` where a text stands.
pub open spec fn last_at(chars: Seq<char>, text: Seq<char>, upto: int) -> Option<int>
    decreases upto + 1,
{
    if upto < 0 {
        None
    } else if stands_at(chars, upto, text) {
        Some(upto)
    } else {
        last_at(chars, text, upto - 1)
    }
}

/// A position as a mathematical integer.
pub open spec fn position_view(at: Option<usize>) -> Option<int> {
    match at {
        Some(at) => Some(at as int),
        None => None,
    }
}

/// Finds the last position where a text stands.
pub fn rfind_text(chars: &[char], text: &str) -> (at: Option<usize>)
    ensures
        position_view(at) == last_at(chars@, text@, chars@.len() as int),
        at matches Some(at) ==> at + text@.len() <= chars.len(),
{
    let wanted = chars_of(text);
    let mut upto: usize = chars.len();
    loop
        invariant
            upto <= chars.len(),
            wanted@ == text@,
            last_at(chars@, text@, chars@.len() as int) == last_at(chars@, text@, upto as int),
        decreases upto,
    {
        if matches_at(chars, upto, wanted.as_slice()) {
            return Some(upto);
        }
        if upto == 0 {
            assert(last_at(chars@, text@, -1) is None);
            return None;
        }
        upto -= 1;
    }
}

/// Whether a text stands somewhere in some characters.
pub open spec fn holds_text(chars: Seq<char>, text: Seq<char>) -> bool {
    exists|at: int| 0 <= at <= chars.len() && #[trigger] stands_at(chars, at, text)
}

/// Tells whether a text stands somewhere in some characters.
pub fn contains_text(chars: &[char], text: &str) -> (found: bool)
    ensures
        found == holds_text(chars@, text@),
{
    let wanted = chars_of(text);
    let mut at: usize = 0;
    loop
        invariant
            at <= chars.len(),
            wanted@ == text@,
            forall|i: int| 0 <= i < at ==> !#[trigger] stands_at(chars@, i, text@),
        decreases chars.len() - at,
    {
        if matches_at(chars, at, wanted.as_slice()) {
            return true;
        }
        if at == chars.len() {
            return false;
        }
        at += 1;
    }
}

/// The first position from `from` on of a character, or the end of the characters.
pub open spec fn first_char(chars: Seq<char>, wanted: char, from: int) -> int
    decreases chars.len() - from,
{
    if from >= chars.len() {
        chars.len() as int
    } else if chars[from] == wanted {
        from
    } else {
        first_char(chars, wanted, from + 1)
    }
}

/// Finds the first position from `from` on of a character.
pub fn find_char(chars: &[char], wanted: char, from: usize) -> (at: usize)
    requires
        from <= chars.len(),
    ensures
        at == first_char(chars@, wanted, from as int),
        from <= at <= chars.len(),
        at < chars.len() ==> chars@[at as int] == wanted,
{
    let mut at: usize = from;
    while at < chars.len() && chars[at] != wanted
        invariant
            from <= at <= chars.len(),
            first_char(chars@, wanted, from as int) == first_char(chars@, wanted, at as int),
        decreases chars.len() - at,
    {
        at += 1;
    }
    at
}

/// The last position in front of `upto` of a character.
pub open spec fn last_char(chars: Seq<char>, wanted: char, upto: int) -> Option<int>
    decreases upto,
{
    if upto <= 0 {
        None
    } else if chars[upto - 1] == wanted {
        Some(upto - 1)
    } else {
        last_char(chars, wanted, upto - 1)
    }
}

/// Finds the last position of a character.
pub fn rfind_char(chars: &[char], wanted: char) -> (at: Option<usize>)
    ensures
        position_view(at) == last_char(chars@, wanted, chars@.len() as int),
        at matches Some(at) ==> at < chars.len() && chars@[at as int] == wanted,
{
    let mut upto: usize = chars.len();
    while upto > 0
        invariant
            upto <= chars.len(),
            last_char(chars@, wanted, chars@.len() as int) == last_char(
                chars@,
                wanted,
                upto as int,
            ),
        decreases upto,
    {
        if chars[upto - 1] == wanted {
            return Some(upto - 1);
        }
        upto -= 1;
    }
    None
}

/// The pieces between the occurrences of a separator, from position `from` on.
pub open spec fn pieces_from(chars: Seq<char>, separator: Seq<char>, from: int) -> Seq<Seq<char>>
    decreases chars.len() - from,
{
    let end = first_at(chars, separator, from);
    if from < 0 || from > chars.len() || end < from {
        Seq::empty()
    } else if end >= chars.len() || separator.len() == 0 || end + separator.len() > chars.len() {
        seq![chars.subrange(from, chars.len() as int)]
    } else {
        seq![chars.subrange(from, end)] + pieces_from(chars, separator, end + separator.len())
    }
}

/// The pieces between the occurrences of a separator.
pub fn split_text(chars: &[char], separator: &str) -> (pieces: Vec<Vec<char>>)
    requires
        separator@.len() > 0,
    ensures
        views(pieces@) == pieces_from(chars@, separator@, 0),
{
    let len: usize = separator.unicode_len();
    let mut pieces: Vec<Vec<char>> = Vec::new();
    let mut from: usize = 0;
    let ghost all = pieces_from(chars@, separator@, 0);
    assert(views(pieces@) + all =~= all);
    loop
        invariant
            from <= chars.len(),
            len == separator@.len(),
            len > 0,
            all == pieces_from(chars@, separator@, 0),
            all == views(pieces@) + pieces_from(chars@, separator@, from as int),
        decreases chars.len() - from,
    {
        let end: usize = find_text(chars, separator, from);
        let piece = slice_to_vec(slice_subrange(chars, from, end));
        let ghost before = views(pieces@);
        pieces.push(piece);
        assert(views(pieces@) =~= before.push(piece@));
        if end == chars.len() {
            assert(before + seq![piece@] =~= views(pieces@));
            return pieces;
        }
        proof {
            let rest = pieces_from(chars@, separator@, end + len);
            assert(before + (seq![piece@] + rest) =~= views(pieces@) + rest);
        }
        from = end + len;
    }
}

// ---------------------------------------------------------------------------
// Lines and words
// ---------------------------------------------------------------------------

/// The lines of a text from position `from` on. A line ends at a line feed, a carriage return in
/// front of it included; behind the last line the line feed may be missing.
pub open spec fn lines_from(chars: Seq<char>, from: int) -> Seq<Seq<char>>
    decreases chars.len() - from,
{
    if from < 0 || from >= chars.len() {
        Seq::empty()
    } else {
        let end = first_char(chars, '\n', from);
        seq![chars.subrange(from, line_end(chars, from, end))] + if end < from || end >= chars.len() {
            Seq::empty()
        } else {
            lines_from(chars, end + 1)
        }
    }
}

/// Where the line from `from` ends whose line feed, if it has one, stands at `end`.
pub open spec fn line_end(chars: Seq<char>, from: int, end: int) -> int {
    if end < chars.len() && end > from && chars[end - 1] == '\r' {
        end - 1
    } else {
        end
    }
}

/// The lines of a text.
pub fn lines_of(text: &str) -> (lines: Vec<Vec<char>>)
    ensures
        views(lines@) == lines_from(text@, 0),
{
    let chars = chars_of(text);
    let mut lines: Vec<Vec<char>> = Vec::new();
    let mut from: usize = 0;
    let ghost all = lines_from(chars@, 0);
    assert(views(lines@) + all =~= all);
    while from < chars.len()
        invariant
            from <= chars@.len(),
            chars@ == text@,
            all == lines_from(chars@, 0),
            all == views(lines@) + lines_from(chars@, from as int),
        decreases chars@.len() - from,
    {
        let stop: usize = find_char(chars.as_slice(), '\n', from);
        let end: usize = if stop < chars.len() && stop > from && chars[stop - 1] == '\r' {
            stop - 1
        } else {
            stop
        };
        let line = slice_to_vec(slice_subrange(chars.as_slice(), from, end));
        let ghost before = views(lines@);
        lines.push(line);
        proof {
            assert(views(lines@) =~= before.push(line@));
            let rest = if stop < chars@.len() {
                lines_from(chars@, stop + 1)
            } else {
                Seq::empty()
            };
            assert(before + (seq![line@] + rest) =~= views(lines@) + rest);
        }
        if stop == chars.len() {
            assert(views(lines@) + Seq::<Seq<char>>::empty() =~= views(lines@));
            return lines;
        }
        from = stop + 1;
    }
    assert(views(lines@) + Seq::<Seq<char>>::empty() =~= views(lines@));
    lines
}

/// Whether a character is white space.
pub open spec fn is_space(c: char) -> bool {
    ||| '\u{9}' <= c <= '\u{d}'
    ||| c == '\u{20}'
    ||| c == '\u{85}'
    ||| c == '\u{a0}'
    ||| c == '\u{1680}'
    ||| '\u{2000}' <= c <= '\u{200a}'
    ||| c == '\u{2028}'
    ||| c == '\u{2029}'
    ||| c == '\u{202f}'
    ||| c == '\u{205f}'
    ||| c == '\u{3000}'
}

/// Tells whether a character is white space.
pub fn is_space_char(c: char) -> (space: bool)
    ensures
        space == is_space(c),
{
    ('\u{9}' <= c && c <= '\u{d}') || c == '\u{20}' || c == '\u{85}' || c == '\u{a0}' || c
        == '\u{1680}' || ('\u{2000}' <= c && c <= '\u{200a}') || c == '\u{2028}' || c == '\u{2029}'
        || c == '\u{202f}' || c == '\u{205f}' || c == '\u{3000}'
}

/// The first position from `from` on that is no white space, or the end.
pub open spec fn text_start(chars: Seq<char>, from: int) -> int
    decreases chars.len() - from,
{
    if from < chars.len() && is_space(chars[from]) {
        text_start(chars, from + 1)
    } else {
        from
    }
}

/// The end of the characters in front of `upto` without white space behind them.
pub open spec fn text_end(chars: Seq<char>, upto: int) -> int
    decreases upto,
{
    if upto > 0 && is_space(chars[upto - 1]) {
        text_end(chars, upto - 1)
    } else {
        upto
    }
}

/// Characters without white space around them.
pub open spec fn trimmed(chars: Seq<char>) -> Seq<char> {
    let start = text_start(chars, 0);
    let end = text_end(chars, chars.len() as int);
    if start < end {
        chars.subrange(start, end)
    } else {
        Seq::empty()
    }
}

/// Finds the first position from `from` on that is no white space.
pub fn find_text_start(chars: &[char], from: usize) -> (start: usize)
    requires
        from <= chars.len(),
    ensures
        start == text_start(chars@, from as int),
        from <= start <= chars.len(),
{
    let mut start: usize = from;
    while start < chars.len() && is_space_char(chars[start])
        invariant
            from <= start <= chars.len(),
            text_start(chars@, from as int) == text_start(chars@, start as int),
        decreases chars.len() - start,
    {
        start += 1;
    }
    start
}

/// Finds the end of the characters without white space behind them.
pub fn find_text_end(chars: &[char]) -> (end: usize)
    ensures
        end == text_end(chars@, chars@.len() as int),
        end <= chars.len(),
{
    let mut end: usize = chars.len();
    while end > 0 && is_space_char(chars[end - 1])
        invariant
            end <= chars.len(),
            text_end(chars@, chars@.len() as int) == text_end(chars@, end as int),
        decreases end,
    {
        end -= 1;
    }
    end
}

/// The characters without white space around them.
pub fn trim(chars: &[char]) -> (rest: &[char])
    ensures
        rest@ == trimmed(chars@),
{
    let start: usize = find_text_start(chars, 0);
    let end: usize = find_text_end(chars);
    if start < end {
        slice_subrange(chars, start, end)
    } else {
        let nothing = slice_subrange(chars, 0, 0);
        assert(nothing@ =~= Seq::empty());
        nothing
    }
}

/// The end of the word that begins at `from`.
pub open spec fn word_end(chars: Seq<char>, from: int) -> int
    decreases chars.len() - from,
{
    if from < chars.len() && !is_space(chars[from]) {
        word_end(chars, from + 1)
    } else {
        from
    }
}

/// Finds the end of the word that begins at `from`.
pub fn find_word_end(chars: &[char], from: usize) -> (end: usize)
    requires
        from <= chars.len(),
    ensures
        end == word_end(chars@, from as int),
        from <= end <= chars.len(),
{
    let mut end: usize = from;
    while end < chars.len() && !is_space_char(chars[end])
        invariant
            from <= end <= chars.len(),
            word_end(chars@, from as int) == word_end(chars@, end as int),
        decreases chars.len() - end,
    {
        end += 1;
    }
    end
}

// ---------------------------------------------------------------------------
// Reading numbers
// ---------------------------------------------------------------------------

/// Whether a character is a decimal digit.
pub open spec fn is_digit(c: char) -> bool {
    '0' <= c <= '9'
}

/// Whether a character is a hexadecimal digit.
pub open spec fn is_hex_digit(c: char) -> bool {
    '0' <= c <= '9' || 'a' <= c <= 'f' || 'A' <= c <= 'F'
}

/// Tells whether a character is a hexadecimal digit.
pub fn is_hex_digit_char(c: char) -> (found: bool)
    ensures
        found == is_hex_digit(c),
{
    ('0' <= c && c <= '9') || ('a' <= c && c <= 'f') || ('A' <= c && c <= 'F')
}

/// Whether all characters from `from` on are hexadecimal digits, and there are some.
pub open spec fn hex_tail(chars: Seq<char>, from: int) -> bool {
    from < chars.len() && forall|i: int| from <= i < chars.len() ==> is_hex_digit(#[trigger] chars[i])
}

/// Tells whether all characters from `from` on are hexadecimal digits, and there are some.
pub fn has_hex_tail(chars: &[char], from: usize) -> (found: bool)
    requires
        from <= chars.len(),
    ensures
        found == hex_tail(chars@, from as int),
{
    let mut i: usize = from;
    while i < chars.len()
        invariant
            from <= i <= chars.len(),
            forall|j: int| from <= j < i ==> is_hex_digit(#[trigger] chars@[j]),
        decreases chars.len() - i,
    {
        if !is_hex_digit_char(chars[i]) {
            return false;
        }
        i += 1;
    }
    from < chars.len()
}

/// The number that decimal digits stand for; nothing where another character is among them.
pub open spec fn digits_value(chars: Seq<char>) -> Option<nat>
    decreases chars.len(),
{
    if chars.len() == 0 {
        Some(0)
    } else if !is_digit(chars.last()) {
        None
    } else {
        match digits_value(chars.drop_last()) {
            None => None,
            Some(value) => Some(10 * value + (chars.last() as nat - '0' as nat) as nat),
        }
    }
}

/// The number that a text states: decimal digits, perhaps behind a plus sign, of a number that
/// is not too large.
pub open spec fn stated_number(chars: Seq<char>) -> Option<u64> {
    let digits = if chars.len() > 0 && chars[0] == '+' {
        chars.subrange(1, chars.len() as int)
    } else {
        chars
    };
    if digits.len() == 0 {
        None
    } else {
        match digits_value(digits) {
            Some(value) => if value <= u64::MAX {
                Some(value as u64)
            } else {
                None
            },
            None => None,
        }
    }
}

/// More digits never make a smaller number.
proof fn digits_value_grows(chars: Seq<char>, count: int)
    requires
        0 <= count <= chars.len(),
    ensures
        match (digits_value(chars.subrange(0, count)), digits_value(chars)) {
            (Some(start), Some(whole)) => start <= whole,
            (None, whole) => whole is None,
            _ => true,
        },
    decreases chars.len() - count,
{
    if count == chars.len() {
        assert(chars.subrange(0, count) =~= chars);
    } else {
        digits_value_grows(chars, count + 1);
        assert(chars.subrange(0, count + 1).drop_last() =~= chars.subrange(0, count));
    }
}

fn digits_number(chars: &[char]) -> (number: Option<u64>)
    ensures
        number == match digits_value(chars@) {
            Some(value) => if value <= u64::MAX {
                Some(value as u64)
            } else {
                None
            },
            None => None,
        },
{
    let mut number: u64 = 0;
    let mut i: usize = 0;
    while i < chars.len()
        invariant
            i <= chars.len(),
            digits_value(chars@.subrange(0, i as int)) == Some(number as nat),
        decreases chars.len() - i,
    {
        let c: char = chars[i];
        proof {
            assert(chars@.subrange(0, i + 1).drop_last() =~= chars@.subrange(0, i as int));
            digits_value_grows(chars@, i + 1);
        }
        if c < '0' || c > '9' {
            return None;
        }
        let digit: u64 = c as u64 - '0' as u64;
        if number > (u64::MAX - digit) / 10 {
            return None;
        }
        number = 10 * number + digit;
        i += 1;
    }
    assert(chars@.subrange(0, i as int) =~= chars@);
    Some(number)
}

/// Reads the number that a text states.
pub fn parse_number(chars: &[char]) -> (number: Option<u64>)
    ensures
        number == stated_number(chars@),
{
    if chars.len() > 0 && chars[0] == '+' {
        if chars.len() == 1 {
            return None;
        }
        digits_number(slice_subrange(chars, 1, chars.len()))
    } else if chars.len() == 0 {
        None
    } else {
        digits_number(chars)
    }
}

/// The message of the error that `str::parse::<u64>` reports for a text that states no number.
pub uninterp spec fn number_error(chars: Seq<char>) -> Seq<char>;

/// Calls `str::parse::<u64>`: digits, perhaps behind a plus sign, give their number where it is
/// not too large; any other text gives the error's message, which is not spelled out.
#[verifier::external_body]
pub(crate) fn number_or_error(text: &str) -> (result: Result<u64, String>)
    ensures
        result matches Ok(number) ==> stated_number(text@) == Some(number),
        result matches Err(error) ==> stated_number(text@) is None && error@ == number_error(
            text@,
        ),
{
    text.parse::<u64>().map_err(|error| error.to_string())
}

// ---------------------------------------------------------------------------
// Numbers
// ---------------------------------------------------------------------------

/// The character of one digit, in any base up to sixteen, in lower case.
pub open spec fn digit_char(digit: nat) -> char {
    if digit < 10 {
        (48 + digit) as char
    } else {
        (87 + digit) as char
    }
}

/// The decimal digits of a number, without leading zeros.
pub open spec fn decimal(n: nat) -> Seq<char>
    decreases n,
{
    if n < 10 {
        seq![digit_char(n)]
    } else {
        decimal(n / 10).push(digit_char(n % 10))
    }
}

/// The decimal digits of a number stand for it.
pub proof fn decimal_is_read(n: nat)
    ensures
        decimal(n).len() > 0,
        forall|i: int| 0 <= i < decimal(n).len() ==> is_digit(#[trigger] decimal(n)[i]),
        digits_value(decimal(n)) == Some(n),
    decreases n,
{
    let text = decimal(n);
    if n < 10 {
        assert(text =~= seq![digit_char(n)]);
        assert(text.drop_last() =~= Seq::empty());
        assert(digits_value(text.drop_last()) == Some(0nat));
        assert(text.last() as nat == 48 + n);
    } else {
        decimal_is_read(n / 10);
        assert(text.drop_last() =~= decimal(n / 10));
        assert(text.last() as nat == 48 + n % 10);
        assert forall|i: int| 0 <= i < text.len() implies is_digit(#[trigger] text[i]) by {
            if i < text.len() - 1 {
                assert(text[i] == decimal(n / 10)[i]);
            }
        }
    }
}

/// The lower-case hexadecimal digits of a number, padded with zeros to at least `width` digits.
pub open spec fn hexadecimal(n: nat, width: nat) -> Seq<char>
    decreases n, width,
{
    if n < 16 && width <= 1 {
        seq![digit_char(n)]
    } else if n < 16 {
        hexadecimal(0, (width - 1) as nat).push(digit_char(n))
    } else {
        hexadecimal(n / 16, if width == 0 { 0 } else { (width - 1) as nat }).push(
            digit_char(n % 16),
        )
    }
}

fn digit_to_char(digit: u8) -> (c: char)
    requires
        digit < 16,
    ensures
        c == digit_char(digit as nat),
{
    if digit < 10 {
        (48u8 + digit) as char
    } else {
        (87u8 + digit) as char
    }
}

/// Appends the decimal digits of `n`.
pub fn push_decimal(out: &mut String, n: u128)
    ensures
        final(out)@ == old(out)@ + decimal(n as nat),
    decreases n,
{
    if n >= 10 {
        push_decimal(out, n / 10);
    }
    out.push(digit_to_char((n % 10) as u8));
}

/// Appends the hexadecimal digits of `n`, padded with zeros to `width` digits.
pub fn push_hexadecimal(out: &mut String, n: u64, width: usize)
    ensures
        final(out)@ == old(out)@ + hexadecimal(n as nat, width as nat),
    decreases n, width,
{
    if n >= 16 {
        push_hexadecimal(out, n / 16, if width == 0 { 0 } else { width - 1 });
    } else if width > 1 {
        push_hexadecimal(out, 0, width - 1);
    }
    out.push(digit_to_char((n % 16) as u8));
}

/// The text `prefix`, then `n` in decimal, then `suffix`.
pub fn number_message(prefix: &str, n: u64, suffix: &str) -> (text: String)
    ensures
        text@ == prefix@ + decimal(n as nat) + suffix@,
{
    let mut text = String::new();
    text.append(prefix);
    push_decimal(&mut text, n as u128);
    text.append(suffix);
    text
}

/// The text `left` followed by `right`.
pub fn joined(left: &str, right: &str) -> (text: String)
    ensures
        text@ == left@ + right@,
{
    let mut text = String::new();
    text.append(left);
    text.append(right);
    text
}

/// The texts of a table.
pub open spec fn texts(table: Map<u32, String>) -> Map<u32, Seq<char>> {
    Map::new(|key: u32| table.contains_key(key), |key: u32| table[key]@)
}

/// Entering a text enters its characters.
pub broadcast proof fn texts_of_insert(table: Map<u32, String>, key: u32, text: String)
    ensures
        #[trigger] texts(table.insert(key, text)) == texts(table).insert(key, text@),
{
    assert(texts(table.insert(key, text)) =~= texts(table).insert(key, text@));
}

/// An optional text.
pub open spec fn text_view(text: Option<String>) -> Option<Seq<char>> {
    match text {
        Some(text) => Some(text@),
        None => None,
    }
}

/// An optional text of a table.
pub open spec fn looked_up(table: Map<u32, Seq<char>>, key: u32) -> Option<Seq<char>> {
    if table.contains_key(key) {
        Some(table[key])
    } else {
        None
    }
}

/// The first `count` texts with a separator between them.
pub open spec fn joined_with(texts: Seq<Seq<char>>, separator: Seq<char>, count: int) -> Seq<char>
    decreases count,
{
    if count <= 0 {
        Seq::empty()
    } else if count == 1 {
        texts[0]
    } else {
        joined_with(texts, separator, count - 1) + separator + texts[count - 1]
    }
}

/// All texts with a separator between them.
pub fn join_texts(texts: &Vec<String>, separator: &str) -> (text: String)
    ensures
        text@ == joined_with(views(texts@), separator@, texts@.len() as int),
{
    let mut text = String::new();
    let mut i: usize = 0;
    while i < texts.len()
        invariant
            i <= texts@.len(),
            text@ == joined_with(views(texts@), separator@, i as int),
        decreases texts@.len() - i,
    {
        assert(views(texts@)[i as int] == texts@[i as int]@);
        if i > 0 {
            text.append(separator);
        }
        text.append(texts[i].as_str());
        i += 1;
        assert(text@ =~= joined_with(views(texts@), separator@, i as int));
    }
    text
}

/// A whole number with its sign.
pub open spec fn signed_decimal(n: int) -> Seq<char> {
    if n < 0 {
        "-"@ + decimal((-n) as nat)
    } else {
        decimal(n as nat)
    }
}

/// Appends a whole number with its sign.
pub fn push_signed(out: &mut String, n: i32)
    ensures
        final(out)@ == old(out)@ + signed_decimal(n as int),
{
    let ghost start = out@;
    if n < 0 {
        out.append("-");
        push_decimal(out, (-(n as i64)) as u128);
        assert(out@ =~= start + signed_decimal(n as int));
    } else {
        push_decimal(out, n as u128);
    }
}

/// What `str::to_lowercase` makes of a text.
pub uninterp spec fn lowercase(text: Seq<char>) -> Seq<char>;

/// Calls `str::to_lowercase`. Which letters have which lower-case forms is not spelled out, only
/// that the result is a function of the text.
#[verifier::external_body]
pub(crate) fn to_lowercase(text: &str) -> (lower: String)
    ensures
        lower@ == lowercase(text@),
{
    text.to_lowercase()
}

// ---------------------------------------------------------------------------
// Machine sizes
// ---------------------------------------------------------------------------

/// The value as a machine size, where it fits.
pub fn size_from_u64(value: u64) -> (size: Option<usize>)
    ensures
        size == if value <= usize::MAX {
            Some(value as usize)
        } else {
            None
        },
{
    if value <= usize::MAX as u64 {
        Some(value as usize)
    } else {
        None
    }
}

// ---------------------------------------------------------------------------
// Laws
// ---------------------------------------------------------------------------

/// Whether none of some characters is a given one.
pub open spec fn is_free_of(chars: Seq<char>, unwanted: char) -> bool {
    forall|i: int| 0 <= i < chars.len() ==> #[trigger] chars[i] != unwanted
}

/// Whether all of some characters are white space.
pub open spec fn is_blank(chars: Seq<char>) -> bool {
    forall|i: int| 0 <= i < chars.len() ==> is_space(#[trigger] chars[i])
}

/// Whether none of some characters is white space.
pub open spec fn is_word(chars: Seq<char>) -> bool {
    forall|i: int| 0 <= i < chars.len() ==> !is_space(#[trigger] chars[i])
}

/// Blanks, tabulators and line ends are white space; no other character of ASCII is.
pub proof fn ascii_space(c: char)
    requires
        (c as u32) < 0x80,
    ensures
        is_space(c) <==> c == ' ' || c == '\t' || c == '\n' || c == '\r' || c == '\u{b}' || c
            == '\u{c}',
{
}

/// A text stands at a position exactly where what stands around it makes up the rest.
pub proof fn standing_is_being_between(chars: Seq<char>, at: int, text: Seq<char>)
    requires
        0 <= at <= chars.len(),
    ensures
        stands_at(chars, at, text) <==> exists|left: Seq<char>, right: Seq<char>|
            left.len() == at && chars == #[trigger] (left + text + right),
{
    if stands_at(chars, at, text) {
        let left = chars.subrange(0, at);
        let right = chars.subrange(at + text.len(), chars.len() as int);
        assert(chars =~= left + text + right) by {
            assert forall|i: int| 0 <= i < chars.len() implies chars[i] == (left + text
                + right)[i] by {
                if at <= i < at + text.len() {
                    assert(chars.subrange(at, at + text.len())[i - at] == chars[i]);
                }
            }
        }
    }
    if exists|left: Seq<char>, right: Seq<char>|
        left.len() == at && chars == #[trigger] (left + text + right) {
        let (left, right) = choose|left: Seq<char>, right: Seq<char>|
            left.len() == at && chars == #[trigger] (left + text + right);
        assert(chars.subrange(at, at + text.len()) =~= text);
    }
}

/// A text stands between any others.
pub proof fn text_stands_between(left: Seq<char>, text: Seq<char>, right: Seq<char>)
    ensures
        stands_at(left + text + right, left.len() as int, text),
{
    assert((left + text + right).subrange(left.len() as int, (left.len() + text.len()) as int) =~= text);
}

/// A text holds another exactly where that one with something in front of it and something behind
/// it makes the text up.
pub proof fn holding_is_being_between(chars: Seq<char>, text: Seq<char>)
    ensures
        holds_text(chars, text) <==> exists|left: Seq<char>, right: Seq<char>|
            chars == #[trigger] (left + text + right),
{
    if holds_text(chars, text) {
        let at = choose|at: int| 0 <= at <= chars.len() && #[trigger] stands_at(chars, at, text);
        standing_is_being_between(chars, at, text);
    }
    if exists|left: Seq<char>, right: Seq<char>| chars == #[trigger] (left + text + right) {
        let (left, right) = choose|left: Seq<char>, right: Seq<char>|
            chars == #[trigger] (left + text + right);
        text_stands_between(left, text, right);
        assert(stands_at(chars, left.len() as int, text));
    }
}

/// A text begins with another exactly where it is that one with something behind it.
pub proof fn beginning_is_being_in_front(text: Seq<char>, prefix: Seq<char>)
    ensures
        begins_with(text, prefix) <==> exists|rest: Seq<char>| text == #[trigger] (prefix + rest),
{
    if begins_with(text, prefix) {
        assert(text =~= prefix + text.subrange(prefix.len() as int, text.len() as int)) by {
            assert forall|i: int| 0 <= i < prefix.len() implies text[i] == prefix[i] by {
                assert(text.subrange(0, prefix.len() as int)[i] == text[i]);
            }
        }
    }
    if exists|rest: Seq<char>| text == #[trigger] (prefix + rest) {
        assert(text.subrange(0, prefix.len() as int) =~= prefix);
    }
}

/// A text ends in another exactly where it is that one with something in front of it.
pub proof fn ending_is_being_behind(text: Seq<char>, suffix: Seq<char>)
    ensures
        ends_in(text, suffix) <==> exists|front: Seq<char>| text == #[trigger] (front + suffix),
{
    if ends_in(text, suffix) {
        let at = text.len() - suffix.len();
        assert(text =~= text.subrange(0, at) + suffix) by {
            assert forall|i: int| at <= i < text.len() implies text[i] == suffix[i - at] by {
                assert(text.subrange(at, at + suffix.len())[i - at] == text[i]);
            }
        }
    }
    if exists|front: Seq<char>| text == #[trigger] (front + suffix) {
        assert(text.subrange(text.len() - suffix.len(), text.len() as int) =~= suffix);
    }
}

/// The first place of a character is one, and there is none in front of it; the end stands for
/// none.
pub proof fn first_char_is_first(chars: Seq<char>, wanted: char, from: int)
    requires
        0 <= from <= chars.len(),
    ensures
        from <= first_char(chars, wanted, from) <= chars.len(),
        forall|i: int|
            from <= i < first_char(chars, wanted, from) ==> #[trigger] chars[i] != wanted,
        first_char(chars, wanted, from) < chars.len() ==> chars[first_char(chars, wanted, from)]
            == wanted,
    decreases chars.len() - from,
{
    if from < chars.len() && chars[from] != wanted {
        first_char_is_first(chars, wanted, from + 1);
    }
}

/// The last place of a character is one, and there is none behind it.
pub proof fn last_char_is_last(chars: Seq<char>, wanted: char, upto: int)
    requires
        0 <= upto <= chars.len(),
    ensures
        match last_char(chars, wanted, upto) {
            Some(at) => 0 <= at < upto && chars[at] == wanted && forall|i: int|
                at < i < upto ==> #[trigger] chars[i] != wanted,
            None => forall|i: int| 0 <= i < upto ==> #[trigger] chars[i] != wanted,
        },
    decreases upto,
{
    if upto > 0 && chars[upto - 1] != wanted {
        last_char_is_last(chars, wanted, upto - 1);
    }
}

/// A character behind characters that are others is found first there.
pub proof fn character_is_found_first(front: Seq<char>, wanted: char, rest: Seq<char>)
    requires
        is_free_of(front, wanted),
    ensures
        first_char(front + seq![wanted] + rest, wanted, 0) == front.len(),
        first_char(front, wanted, 0) == front.len(),
{
    let chars = front + seq![wanted] + rest;
    first_char_is_first(chars, wanted, 0);
    first_char_is_first(front, wanted, 0);
    let found = first_char(chars, wanted, 0);
    assert(chars[front.len() as int] == wanted);
    if found < front.len() {
        assert(chars[found] == front[found]);
    }
    let other = first_char(front, wanted, 0);
    if other < front.len() {
        assert(front[other] == wanted);
    }
}

/// A character in front of characters that are others is found last there.
pub proof fn character_is_found_last(front: Seq<char>, wanted: char, rest: Seq<char>)
    requires
        is_free_of(rest, wanted),
    ensures
        last_char(front + seq![wanted] + rest, wanted, (front.len() + 1 + rest.len()) as int) == Some(
            front.len() as int,
        ),
        last_char(rest, wanted, rest.len() as int) is None,
{
    let chars = front + seq![wanted] + rest;
    last_char_is_last(chars, wanted, chars.len() as int);
    last_char_is_last(rest, wanted, rest.len() as int);
    assert(chars[front.len() as int] == wanted);
    if let Some(at) = last_char(chars, wanted, chars.len() as int) {
        if at > front.len() {
            assert(chars[at] == rest[at - front.len() - 1]);
        }
    }
}

/// The first place of a text is one, and there is none in front of it; the end stands for none.
pub proof fn first_at_is_first(chars: Seq<char>, text: Seq<char>, from: int)
    requires
        0 <= from <= chars.len(),
    ensures
        from <= first_at(chars, text, from) <= chars.len(),
        forall|i: int|
            from <= i < first_at(chars, text, from) ==> !#[trigger] stands_at(chars, i, text),
        first_at(chars, text, from) < chars.len() ==> stands_at(
            chars,
            first_at(chars, text, from),
            text,
        ),
    decreases chars.len() - from,
{
    if from < chars.len() && !stands_at(chars, from, text) {
        first_at_is_first(chars, text, from + 1);
    }
}

/// The last place of a text is one, and there is none behind it.
pub proof fn last_at_is_last(chars: Seq<char>, text: Seq<char>, upto: int)
    requires
        -1 <= upto <= chars.len(),
    ensures
        match last_at(chars, text, upto) {
            Some(at) => 0 <= at <= upto && stands_at(chars, at, text) && forall|i: int|
                at < i <= upto ==> !#[trigger] stands_at(chars, i, text),
            None => forall|i: int| 0 <= i <= upto ==> !#[trigger] stands_at(chars, i, text),
        },
    decreases upto + 1,
{
    if upto >= 0 && !stands_at(chars, upto, text) {
        last_at_is_last(chars, text, upto - 1);
    }
}

/// A text that begins with a character of its own is found last behind texts without it.
pub proof fn text_is_found_last(front: Seq<char>, text: Seq<char>, rest: Seq<char>)
    requires
        text.len() > 0,
        is_free_of(text.drop_first(), text[0]),
        is_free_of(rest, text[0]),
    ensures
        last_at(front + text + rest, text, (front.len() + text.len() + rest.len()) as int) == Some(
            front.len() as int,
        ),
{
    let chars = front + text + rest;
    let found = last_at(chars, text, chars.len() as int);
    assert(found matches Some(at) && at >= front.len() && stands_at(chars, at, text)) by {
        last_at_is_last(chars, text, chars.len() as int);
        text_stands_between(front, text, rest);
    }
    let at = found->0;
    if at > front.len() {
        assert(chars.subrange(at, at + text.len()) == text);
        assert(text[0] == chars[at]);
        if at < front.len() + text.len() {
            assert(chars[at] == text[at - front.len()]);
            assert(text.drop_first()[at - front.len() - 1] == text[at - front.len()]);
        } else {
            assert(chars[at] == rest[at - front.len() - text.len()]);
        }
    }
}

/// White space around a text is taken away, and nothing else.
pub proof fn only_space_is_trimmed(left: Seq<char>, text: Seq<char>, right: Seq<char>)
    requires
        is_blank(left),
        is_blank(right),
        text.len() > 0 ==> !is_space(text[0]) && !is_space(text.last()),
    ensures
        trimmed(left + text + right) == text,
{
    let chars = left + text + right;
    if text.len() > 0 {
        text_start_is_behind(chars, 0, left.len() as int);
        assert(chars[left.len() as int] == text[0]);
        assert forall|i: int| left.len() + text.len() <= i < chars.len() implies is_space(
            #[trigger] chars[i],
        ) by {
            assert(chars[i] == right[i - left.len() - text.len()]);
        }
        text_end_is_in_front(chars, chars.len() as int, (left.len() + text.len()) as int);
        assert(chars[left.len() + text.len() - 1] == text.last());
        assert(chars.subrange(left.len() as int, (left.len() + text.len()) as int) =~= text);
    } else {
        assert forall|i: int| 0 <= i < chars.len() implies is_space(#[trigger] chars[i]) by {
            if i < left.len() {
                assert(chars[i] == left[i]);
            } else {
                assert(chars[i] == right[i - left.len()]);
            }
        }
        text_end_is_in_front(chars, chars.len() as int, 0);
        text_start_is_behind(chars, 0, chars.len() as int);
        assert(text =~= Seq::empty());
    }
}

/// White space up to a place is passed over.
pub proof fn text_start_is_behind(chars: Seq<char>, from: int, at: int)
    requires
        0 <= from <= at <= chars.len(),
        forall|i: int| from <= i < at ==> is_space(#[trigger] chars[i]),
        at < chars.len() ==> !is_space(chars[at]),
    ensures
        text_start(chars, from) == at,
    decreases at - from,
{
    if from < at {
        text_start_is_behind(chars, from + 1, at);
    }
}

/// White space from a place on is passed over backwards.
pub proof fn text_end_is_in_front(chars: Seq<char>, upto: int, at: int)
    requires
        0 <= at <= upto <= chars.len(),
        forall|i: int| at <= i < upto ==> is_space(#[trigger] chars[i]),
        at > 0 ==> !is_space(chars[at - 1]),
    ensures
        text_end(chars, upto) == at,
    decreases upto - at,
{
    if at < upto {
        text_end_is_in_front(chars, upto - 1, at);
    }
}

/// A word ends at the first white space behind it.
pub proof fn words_end_at_space(chars: Seq<char>, from: int, at: int)
    requires
        0 <= from <= at <= chars.len(),
        forall|i: int| from <= i < at ==> !is_space(#[trigger] chars[i]),
        at < chars.len() ==> is_space(chars[at]),
    ensures
        word_end(chars, from) == at,
    decreases at - from,
{
    if from < at {
        words_end_at_space(chars, from + 1, at);
    }
}

proof fn first_char_behind(front: Seq<char>, chars: Seq<char>, wanted: char, from: int)
    requires
        0 <= from <= chars.len(),
    ensures
        first_char(front + chars, wanted, front.len() + from) == front.len() + first_char(
            chars,
            wanted,
            from,
        ),
    decreases chars.len() - from,
{
    if from < chars.len() {
        assert((front + chars)[front.len() + from] == chars[from]);
        first_char_behind(front, chars, wanted, from + 1);
    }
}

proof fn lines_behind(front: Seq<char>, chars: Seq<char>, from: int)
    requires
        0 <= from <= chars.len(),
    ensures
        lines_from(front + chars, front.len() + from) == lines_from(chars, from),
    decreases chars.len() - from,
{
    if from < chars.len() {
        let whole = front + chars;
        first_char_behind(front, chars, '\n', from);
        first_char_is_first(chars, '\n', from);
        let end = first_char(chars, '\n', from);
        if from < end < chars.len() {
            assert(whole[front.len() + end - 1] == chars[end - 1]);
        }
        assert(whole.subrange(
            front.len() + from,
            line_end(whole, front.len() + from, front.len() + end),
        ) =~= chars.subrange(from, line_end(chars, from, end)));
        if end < chars.len() {
            lines_behind(front, chars, end + 1);
        }
    }
}

/// A line without the carriage return that may stand at its end.
pub open spec fn without_return(line: Seq<char>) -> Seq<char> {
    if line.len() > 0 && line.last() == '\r' {
        line.drop_last()
    } else {
        line
    }
}

/// A text is read line by line: what stands in front of its first line feed is its first line,
/// without a carriage return at its end, and the lines of what stands behind it follow. A text
/// without line feeds is one line, unless it is empty.
pub proof fn lines_are_read_one_by_one(line: Seq<char>, rest: Seq<char>)
    requires
        is_free_of(line, '\n'),
    ensures
        lines_from(line + seq!['\n'] + rest, 0) == seq![without_return(line)] + lines_from(rest, 0),
        line.len() > 0 ==> lines_from(line, 0) == seq![line],
        lines_from(Seq::empty(), 0) == Seq::<Seq<char>>::empty(),
{
    let chars = line + seq!['\n'] + rest;
    character_is_found_first(line, '\n', rest);
    let front = line + seq!['\n'];
    assert(front + rest =~= chars);
    lines_behind(front, rest, 0);
    let end = line.len() as int;
    if end > 0 {
        assert(chars[end - 1] == line.last());
    }
    assert(chars.subrange(0, line_end(chars, 0, end)) =~= without_return(line));
    if line.len() > 0 {
        assert(line.subrange(0, end) =~= line);
        assert(seq![line] + Seq::<Seq<char>>::empty() =~= seq![line]);
    }
}

/// A text is found behind others as it is found alone.
pub proof fn first_at_behind(front: Seq<char>, chars: Seq<char>, text: Seq<char>, from: int)
    requires
        0 <= from <= chars.len(),
    ensures
        first_at(front + chars, text, front.len() + from) == front.len() + first_at(
            chars,
            text,
            from,
        ),
    decreases chars.len() - from,
{
    if from < chars.len() {
        let at = front.len() + from;
        if from + text.len() <= chars.len() {
            assert((front + chars).subrange(at, at + text.len()) =~= chars.subrange(
                from,
                from + text.len(),
            ));
        }
        first_at_behind(front, chars, text, from + 1);
    }
}

proof fn pieces_behind(front: Seq<char>, chars: Seq<char>, separator: Seq<char>, from: int)
    requires
        0 <= from <= chars.len(),
    ensures
        pieces_from(front + chars, separator, front.len() + from) == pieces_from(
            chars,
            separator,
            from,
        ),
    decreases chars.len() - from,
{
    let whole = front + chars;
    first_at_behind(front, chars, separator, from);
    first_at_is_first(chars, separator, from);
    let end = first_at(chars, separator, from);
    assert(whole.subrange(front.len() + from, whole.len() as int) =~= chars.subrange(
        from,
        chars.len() as int,
    ));
    assert(whole.subrange(front.len() + from, front.len() + end) =~= chars.subrange(from, end));
    if !(end >= chars.len() || separator.len() == 0 || end + separator.len() > chars.len()) {
        pieces_behind(front, chars, separator, end + separator.len());
    }
}

/// A text falls apart at a separator: what stands in front of its first place is the first piece,
/// and the pieces of what stands behind it follow. A text without separators is one piece.
pub proof fn pieces_are_cut_one_by_one(piece: Seq<char>, separator: Seq<char>, rest: Seq<char>)
    requires
        separator.len() > 0,
        forall|i: int|
            0 <= i < piece.len() ==> !#[trigger] stands_at(piece + separator + rest, i, separator),
    ensures
        pieces_from(piece + separator + rest, separator, 0) == seq![piece] + pieces_from(
            rest,
            separator,
            0,
        ),
        pieces_from(piece, separator, 0) == seq![piece],
{
    let chars = piece + separator + rest;
    first_at_is_first(chars, separator, 0);
    text_stands_between(piece, separator, rest);
    let end = first_at(chars, separator, 0);
    assert(end == piece.len());
    let front = piece + separator;
    pieces_behind(front, rest, separator, 0);
    assert(chars.subrange(0, end) =~= piece);
    first_at_is_first(piece, separator, 0);
    let other = first_at(piece, separator, 0);
    if other < piece.len() {
        assert(chars.subrange(other, other + separator.len()) =~= piece.subrange(
            other,
            other + separator.len(),
        ));
        assert(stands_at(chars, other, separator));
    }
    assert(piece.subrange(0, piece.len() as int) =~= piece);
}

/// The number that a text of digits states is the one whose digits it is made of, with a plus sign
/// in front of it or without.
pub proof fn stated_numbers_are_read(n: u64)
    ensures
        stated_number(decimal(n as nat)) == Some(n),
        stated_number(seq!['+'] + decimal(n as nat)) == Some(n),
{
    decimal_is_read(n as nat);
    let text = decimal(n as nat);
    assert(is_digit(text[0]));
    let signed = seq!['+'] + text;
    assert(signed.subrange(1, signed.len() as int) =~= text);
}

/// A text that states a number holds nothing but digits, perhaps behind a plus sign.
pub proof fn only_digits_state_numbers(chars: Seq<char>)
    requires
        stated_number(chars) is Some,
    ensures
        chars.len() > 0,
        forall|i: int| 0 < i < chars.len() ==> is_digit(#[trigger] chars[i]),
        is_digit(chars[0]) || (chars[0] == '+' && chars.len() > 1),
{
    if chars[0] == '+' {
        let digits = chars.subrange(1, chars.len() as int);
        digits_have_values(digits);
        assert forall|i: int| 0 < i < chars.len() implies is_digit(#[trigger] chars[i]) by {
            assert(digits[i - 1] == chars[i]);
        }
    } else {
        digits_have_values(chars);
    }
}

proof fn digits_have_values(chars: Seq<char>)
    requires
        digits_value(chars) is Some,
    ensures
        forall|i: int| 0 <= i < chars.len() ==> is_digit(#[trigger] chars[i]),
    decreases chars.len(),
{
    if chars.len() > 0 {
        digits_have_values(chars.drop_last());
        assert forall|i: int| 0 <= i < chars.len() implies is_digit(#[trigger] chars[i]) by {
            if i < chars.len() - 1 {
                assert(chars.drop_last()[i] == chars[i]);
            }
        }
    }
}

/// The number that hexadecimal digits in lower case stand for.
pub open spec fn hex_number(chars: Seq<char>) -> nat
    decreases chars.len(),
{
    if chars.len() == 0 {
        0
    } else {
        let c = chars.last();
        let digit = if c >= 'a' {
            10 + (c as nat - 'a' as nat)
        } else {
            c as nat - '0' as nat
        };
        (16 * hex_number(chars.drop_last()) + digit) as nat
    }
}

/// The hexadecimal digits of a number stand for it, are in lower case, and are at least as many as
/// asked for.
pub proof fn hexadecimal_is_read(n: nat, width: nat)
    ensures
        hex_number(hexadecimal(n, width)) == n,
        hexadecimal(n, width).len() >= width,
        hexadecimal(n, width).len() > 0,
        forall|i: int|
            0 <= i < hexadecimal(n, width).len() ==> '0' <= #[trigger] hexadecimal(n, width)[i]
                <= '9' || 'a' <= hexadecimal(n, width)[i] <= 'f',
    decreases n, width,
{
    let text = hexadecimal(n, width);
    if n < 16 && width <= 1 {
        assert(text.drop_last() =~= Seq::empty());
        assert(hex_number(text.drop_last()) == 0);
    } else {
        let (rest, less) = if n < 16 {
            (0nat, (width - 1) as nat)
        } else {
            (n / 16, if width == 0 {
                0
            } else {
                (width - 1) as nat
            })
        };
        hexadecimal_is_read(rest, less);
        assert(text =~= hexadecimal(rest, less).push(digit_char(n % 16)));
        assert(text.drop_last() =~= hexadecimal(rest, less));
        assert forall|i: int| 0 <= i < text.len() implies '0' <= #[trigger] text[i] <= '9' || 'a'
            <= text[i] <= 'f' by {
            if i < text.len() - 1 {
                assert(text[i] == hexadecimal(rest, less)[i]);
            }
        }
    }
}

/// Texts are joined one by one, with a separator in front of each but the first.
pub proof fn texts_join_one_by_one(texts: Seq<Seq<char>>, separator: Seq<char>, text: Seq<char>)
    ensures
        joined_with(Seq::empty(), separator, 0) == Seq::<char>::empty(),
        joined_with(seq![text], separator, 1) == text,
        texts.len() > 0 ==> joined_with(
            texts.push(text),
            separator,
            (texts.len() + 1) as int,
        ) == joined_with(texts, separator, texts.len() as int) + separator + text,
{
    joined_with_agrees(texts, texts.push(text), separator, texts.len() as int);
}

proof fn joined_with_agrees(
    texts: Seq<Seq<char>>,
    longer: Seq<Seq<char>>,
    separator: Seq<char>,
    count: int,
)
    requires
        count <= texts.len(),
        count <= longer.len(),
        forall|i: int| 0 <= i < count ==> #[trigger] texts[i] == longer[i],
    ensures
        joined_with(texts, separator, count) == joined_with(longer, separator, count),
    decreases count,
{
    if count > 0 {
        joined_with_agrees(texts, longer, separator, count - 1);
        assert(texts[count - 1] == longer[count - 1]);
    }
}

proof fn character_stands_where_it_is(chars: Seq<char>, at: int, c: char)
    requires
        0 <= at < chars.len(),
    ensures
        stands_at(chars, at, seq![c]) <==> chars[at] == c,
{
    if chars[at] == c {
        assert(chars.subrange(at, at + 1) =~= seq![c]);
    }
    if stands_at(chars, at, seq![c]) {
        assert(chars.subrange(at, at + 1)[0] == c);
    }
}

/// The pieces of two texts with a separating character between them are those of the one and
/// those of the other.
pub proof fn pieces_of_texts_join(left: Seq<char>, c: char, right: Seq<char>)
    ensures
        pieces_from(left + seq![c] + right, seq![c], 0) == pieces_from(left, seq![c], 0)
            + pieces_from(right, seq![c], 0),
        is_free_of(left, c) ==> pieces_from(left, seq![c], 0) == seq![left],
    decreases left.len(),
{
    let end = first_char(left, c, 0);
    first_char_is_first(left, c, 0);
    let piece = left.subrange(0, end);
    let whole = left + seq![c] + right;
    assert forall|i: int| 0 <= i < end implies whole[i] == left[i] && left[i] != c by {}
    if end < left.len() {
        let rest = left.subrange(end + 1, left.len() as int);
        assert(left =~= piece + seq![c] + rest);
        assert(whole =~= piece + seq![c] + (rest + seq![c] + right));
        assert forall|i: int| 0 <= i < piece.len() implies !#[trigger] stands_at(
            left,
            i,
            seq![c],
        ) by {
            character_stands_where_it_is(left, i, c);
        }
        assert forall|i: int| 0 <= i < piece.len() implies !#[trigger] stands_at(
            whole,
            i,
            seq![c],
        ) by {
            character_stands_where_it_is(whole, i, c);
        }
        pieces_are_cut_one_by_one(piece, seq![c], rest);
        pieces_are_cut_one_by_one(piece, seq![c], rest + seq![c] + right);
        pieces_of_texts_join(rest, c, right);
        assert(pieces_from(whole, seq![c], 0) =~= pieces_from(left, seq![c], 0) + pieces_from(
            right,
            seq![c],
            0,
        ));
        assert(left[end] == c);
    } else {
        assert(piece =~= left);
        assert forall|i: int| 0 <= i < left.len() implies !#[trigger] stands_at(
            whole,
            i,
            seq![c],
        ) by {
            character_stands_where_it_is(whole, i, c);
        }
        pieces_are_cut_one_by_one(left, seq![c], right);
    }
}

/// Nothing is left of characters without the white space around them just where they are all
/// white space.
pub proof fn white_space_is_trimmed_away(chars: Seq<char>)
    ensures
        trimmed(chars).len() == 0 <==> is_blank(chars),
{
    if is_blank(chars) {
        text_start_is_behind(chars, 0, chars.len() as int);
        text_end_is_in_front(chars, chars.len() as int, 0);
    } else {
        let at = choose|at: int| 0 <= at < chars.len() && !is_space(#[trigger] chars[at]);
        text_reaches(chars, 0, chars.len() as int, at);
    }
}

proof fn text_reaches(chars: Seq<char>, from: int, upto: int, at: int)
    requires
        0 <= from <= at < upto <= chars.len(),
        !is_space(chars[at]),
    ensures
        0 <= text_start(chars, from) <= at < text_end(chars, upto) <= chars.len(),
    decreases upto - from,
{
    if from < at {
        text_reaches(chars, from + 1, upto, at);
    }
    if at + 1 < upto {
        text_reaches(chars, from, upto - 1, at);
    }
}

} // verus!
