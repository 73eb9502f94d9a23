//! The rows of a CPU profile that `xctrace` exports.

use vstd::prelude::*;
use vstd::slice::slice_subrange;
use vstd::string::{StrSliceExecFns, StringExecFns};

use crate::text::{
    chars_of, find_text, first_at, first_at_is_first, is_blank, is_free_of, is_space,
    only_space_is_trimmed, pieces_from, split_text, stands_at, text_of, text_stands_between, trim,
    trimmed, views,
};

verus! {

/// A row of a profile: a symbol, and its weight as it is printed.
#[derive(Clone, Debug, Eq, PartialEq)]
pub struct XctraceRowText {
    pub symbol: String,
    pub weight: String,
}

/// A row of a profile: symbol and weight.
pub type RowModel = (Seq<char>, Seq<char>);

impl View for XctraceRowText {
    type V = RowModel;

    open spec fn view(&self) -> RowModel {
        (self.symbol@, self.weight@)
    }
}

/// What stands between the tags of a name, without white space around it.
pub open spec fn tag_text_of(input: Seq<char>, tag: Seq<char>) -> Option<Seq<char>> {
    let open = "<"@ + tag + ">"@;
    let close = "</"@ + tag + ">"@;
    let at = first_at(input, open, 0);
    if at >= input.len() {
        None
    } else {
        let start = at + open.len();
        let end = first_at(input, close, start);
        if end >= input.len() {
            None
        } else {
            Some(trimmed(input.subrange(start, end)))
        }
    }
}

fn tag_text(input: &[char], tag: &str) -> (text: Option<String>)
    ensures
        crate::text::text_view(text) == tag_text_of(input@, tag@),
{
    let mut open = "<".to_string();
    open.append(tag);
    open.append(">");
    let mut close = "</".to_string();
    close.append(tag);
    close.append(">");
    let at: usize = find_text(input, open.as_str(), 0);
    if at >= input.len() {
        return None;
    }
    let start: usize = at + open.as_str().unicode_len();
    let end: usize = find_text(input, close.as_str(), start);
    if end >= input.len() {
        return None;
    }
    Some(text_of(trim(slice_subrange(input, start, end))))
}

/// The row in a piece behind the beginning of one: its symbol and weight, where it has both.
pub open spec fn row_of(piece: Seq<char>) -> Option<RowModel> {
    let row = piece.subrange(0, first_at(piece, "</row>"@, 0));
    match (tag_text_of(row, "symbol"@), tag_text_of(row, "weight"@)) {
        (Some(symbol), Some(weight)) => Some((symbol, weight)),
        _ => None,
    }
}

fn parse_row(piece: &[char]) -> (row: Option<XctraceRowText>)
    ensures
        match row {
            Some(row) => row_of(piece@) == Some(row@),
            None => row_of(piece@) is None,
        },
{
    let end: usize = find_text(piece, "</row>", 0);
    let row = slice_subrange(piece, 0, end);
    match (tag_text(row, "symbol"), tag_text(row, "weight")) {
        (Some(symbol), Some(weight)) => Some(XctraceRowText { symbol, weight }),
        _ => None,
    }
}

/// The rows among the first `count` pieces, without the piece in front of the first row.
pub open spec fn rows_of(pieces: Seq<Seq<char>>, count: int) -> Seq<RowModel>
    decreases count,
{
    if count <= 1 {
        Seq::empty()
    } else {
        match row_of(pieces[count - 1]) {
            None => rows_of(pieces, count - 1),
            Some(row) => rows_of(pieces, count - 1).push(row),
        }
    }
}

/// Reads the rows of a profile.
#[must_use]
pub fn parse_cpu_rows(xml: &str) -> (rows: Vec<XctraceRowText>)
    ensures
        views(rows@) == rows_of(
            pieces_from(xml@, "<row>"@, 0),
            pieces_from(xml@, "<row>"@, 0).len() as int,
        ),
{
    proof {
        reveal_strlit("<row>");
    }
    let chars = chars_of(xml);
    let pieces = split_text(chars.as_slice(), "<row>");
    let ghost all = views(pieces@);
    let mut rows: Vec<XctraceRowText> = Vec::new();
    assert(views(rows@) =~= Seq::empty());
    if pieces.len() == 0 {
        return rows;
    }
    let mut index: usize = 1;
    while index < pieces.len()
        invariant
            1 <= index <= pieces@.len(),
            all == views(pieces@),
            views(rows@) == rows_of(all, index as int),
        decreases pieces@.len() - index,
    {
        assert(all[index as int] == pieces@[index as int]@);
        if let Some(row) = parse_row(pieces[index].as_slice()) {
            let ghost before = views(rows@);
            rows.push(row);
            assert(views(rows@) =~= before.push(row@));
        }
        index += 1;
    }
    rows
}

// ---------------------------------------------------------------------------
// Laws
// ---------------------------------------------------------------------------

/// The text of a tag is what stands between it and the tag that closes it, without the blanks
/// around it.
pub proof fn tags_hold_their_texts(
    front: Seq<char>,
    tag: Seq<char>,
    left: Seq<char>,
    text: Seq<char>,
    right: Seq<char>,
    rest: Seq<char>,
)
    requires
        forall|i: int|
            0 <= i < front.len() ==> !#[trigger] stands_at(
                front + ("<"@ + tag + ">"@) + (left + text + right + ("</"@ + tag + ">"@) + rest),
                i,
                "<"@ + tag + ">"@,
            ),
        is_blank(left),
        text.len() > 0 ==> !is_space(text[0]) && !is_space(text.last()),
        is_free_of(text, '<'),
        is_blank(right),
    ensures
        tag_text_of(
            front + ("<"@ + tag + ">"@) + (left + text + right + ("</"@ + tag + ">"@) + rest),
            tag,
        ) == Some(text),
{
    reveal_strlit("<");
    reveal_strlit("</");
    reveal_strlit(">");
    let open = "<"@ + tag + ">"@;
    let close = "</"@ + tag + ">"@;
    let inner = left + text + right;
    let behind = inner + close + rest;
    let input = front + open + behind;
    first_at_is_first(input, open, 0);
    text_stands_between(front, open, behind);
    assert(first_at(input, open, 0) == front.len());
    let start = front.len() + open.len();
    let end = start + inner.len();
    first_at_is_first(input, close, start as int);
    let found = first_at(input, close, start as int);
    assert(input =~= front + open + inner + close + rest);
    text_stands_between(front + open + inner, close, rest);
    assert(stands_at(input, end as int, close));
    if found < end {
        assert(input.subrange(found, found + close.len())[0] == input[found]);
        let at = found - start;
        assert(input[found] == inner[at]);
        if at < left.len() {
            assert(inner[at] == left[at]);
        } else if at < left.len() + text.len() {
            assert(inner[at] == text[at - left.len()]);
        } else {
            assert(inner[at] == right[at - left.len() - text.len()]);
        }
    }
    assert(input.subrange(start as int, end as int) =~= inner);
    only_space_is_trimmed(left, text, right);
}

/// A row ends at its closing tag: what stands behind it does not belong to the row.
pub proof fn rows_end_at_their_closing_tags(row: Seq<char>, rest: Seq<char>)
    requires
        forall|i: int|
            0 <= i < row.len() ==> !#[trigger] stands_at(row + "</row>"@ + rest, i, "</row>"@),
    ensures
        match (tag_text_of(row, "symbol"@), tag_text_of(row, "weight"@)) {
            (Some(symbol), Some(weight)) => row_of(row + "</row>"@ + rest) == Some(
                (symbol, weight),
            ),
            _ => row_of(row + "</row>"@ + rest) is None,
        },
{
    reveal_strlit("</row>");
    let piece = row + "</row>"@ + rest;
    first_at_is_first(piece, "</row>"@, 0);
    text_stands_between(row, "</row>"@, rest);
    assert(first_at(piece, "</row>"@, 0) == row.len());
    assert(piece.subrange(0, row.len() as int) =~= row);
}

proof fn rows_are_listed_up_to(pieces: Seq<Seq<char>>, count: int)
    requires
        1 <= count <= pieces.len(),
    ensures
        rows_of(pieces, count) == pieces.subrange(1, count).filter_map(
            |piece: Seq<char>| row_of(piece),
        ),
    decreases count,
{
    if count > 1 {
        rows_are_listed_up_to(pieces, count - 1);
        let part = pieces.subrange(1, count);
        assert(part.drop_last() =~= pieces.subrange(1, count - 1));
        assert(part.last() == pieces[count - 1]);
        if let Some(row) = row_of(pieces[count - 1]) {
            assert(rows_of(pieces, count - 1).push(row) =~= rows_of(pieces, count - 1) + seq![row]);
        }
    } else {
        assert(pieces.subrange(1, count) =~= Seq::empty());
    }
}

/// The rows of a profile are those of all pieces behind the first, in their order.
pub proof fn rows_are_listed_in_order(front: Seq<char>, pieces: Seq<Seq<char>>)
    ensures
        rows_of(seq![front] + pieces, (pieces.len() + 1) as int) == pieces.filter_map(
            |piece: Seq<char>| row_of(piece),
        ),
{
    let all = seq![front] + pieces;
    rows_are_listed_up_to(all, all.len() as int);
    assert(all.subrange(1, all.len() as int) =~= pieces);
}

} // verus!
