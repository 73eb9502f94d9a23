//! The comparison of folded lines.

use vstd::prelude::*;
use vstd::slice::slice_subrange;
use vstd::utf8::encode_utf8;

use crate::sorting::{bytes_in_order, bytes_le, bytes_order};
use crate::summary::threads::folded_line_of;
use crate::text::{
    chars_of, joined, last_char, number_error, number_or_error, outcome, rfind_char, same_text,
    stated_number, text_of, text_view, views,
};

verus! {

broadcast use vstd::string::group_string_axioms;

/// How many differences are listed of each side.
pub const MAX_REPORTED_DIFFERENCES: usize = 1_000;

// ---------------------------------------------------------------------------
// Lines
// ---------------------------------------------------------------------------

/// A folded line: all of it, its stack and its count.
#[derive(Clone, Debug, Eq, PartialEq)]
pub struct FoldedEntry {
    pub raw: String,
    pub stack: String,
    pub count: u64,
}

/// The contents of a [`FoldedEntry`].
#[verifier::ext_equal]
pub struct EntryModel {
    pub raw: Seq<char>,
    pub stack: Seq<char>,
    pub count: u64,
}

impl View for FoldedEntry {
    type V = EntryModel;

    open spec fn view(&self) -> EntryModel {
        EntryModel { raw: self.raw@, stack: self.stack@, count: self.count }
    }
}

/// What a line reads as: the count stands behind the last space.
pub open spec fn entry_of(line: Seq<char>) -> Result<EntryModel, Seq<char>> {
    match last_char(line, ' ', line.len() as int) {
        None => Err("folded stack line is missing count: "@ + line),
        Some(space) => {
            let digits = line.subrange(space + 1, line.len() as int);
            match stated_number(digits) {
                None => Err("folded stack count is invalid: "@ + number_error(digits)),
                Some(count) => Ok(
                    EntryModel { raw: line, stack: line.subrange(0, space), count },
                ),
            }
        },
    }
}

/// Reads a folded line.
pub fn read_folded_entry(raw: String) -> (entry: Result<FoldedEntry, String>)
    ensures
        outcome(entry) == entry_of(raw@),
{
    let line = chars_of(raw.as_str());
    let space: usize = match rfind_char(line.as_slice(), ' ') {
        Some(space) => space,
        None => return Err(joined("folded stack line is missing count: ", raw.as_str())),
    };
    let digits = text_of(slice_subrange(line.as_slice(), space + 1, line.len()));
    match number_or_error(digits.as_str()) {
        Ok(count) => {
            let stack = text_of(slice_subrange(line.as_slice(), 0, space));
            Ok(FoldedEntry { raw, stack, count })
        },
        Err(error) => Err(joined("folded stack count is invalid: ", error.as_str())),
    }
}

/// A line is read just where it has a stack and a count.
pub proof fn readable_lines_have_counts(line: Seq<char>)
    ensures
        entry_of(line) matches Ok(entry) ==> folded_line_of(line) == Some(
            (entry.stack, entry.count),
        ) && entry.raw == line,
        entry_of(line) is Err <==> folded_line_of(line) is None,
{
}

/// Whether a stack comes before another.
pub open spec fn stack_before(left: Seq<char>, right: Seq<char>) -> bool {
    left != right && bytes_le(encode_utf8(left), encode_utf8(right))
}

/// Tells whether a stack comes no later than another.
pub fn stack_in_order(left: &str, right: &str) -> (ordered: bool)
    ensures
        ordered == bytes_le(encode_utf8(left@), encode_utf8(right@)),
{
    bytes_in_order(left.as_bytes(), right.as_bytes())
}

// ---------------------------------------------------------------------------
// Differences
// ---------------------------------------------------------------------------

/// Whether lines are the same, and the first of those that only one side has.
#[derive(Clone, Debug, Eq, PartialEq)]
pub struct DiffSummary {
    pub matches: bool,
    pub only_pyroclast: Vec<String>,
    pub only_inferno: Vec<String>,
}

/// The contents of a [`DiffSummary`].
#[verifier::ext_equal]
pub struct DiffModel {
    pub matches: bool,
    pub only_pyroclast: Seq<Seq<char>>,
    pub only_inferno: Seq<Seq<char>>,
}

impl View for DiffSummary {
    type V = DiffModel;

    open spec fn view(&self) -> DiffModel {
        DiffModel {
            matches: self.matches,
            only_pyroclast: views(self.only_pyroclast@),
            only_inferno: views(self.only_inferno@),
        }
    }
}

/// No difference.
pub open spec fn no_difference() -> DiffModel {
    DiffModel { matches: true, only_pyroclast: Seq::empty(), only_inferno: Seq::empty() }
}

/// A list with one more difference, if it is not full.
pub open spec fn noted(differences: Seq<Seq<char>>, line: Seq<char>) -> Seq<Seq<char>> {
    if differences.len() < MAX_REPORTED_DIFFERENCES {
        differences.push(line)
    } else {
        differences
    }
}

impl DiffModel {
    /// With a line that only the first side has.
    pub open spec fn left_only(self, line: Seq<char>) -> DiffModel {
        DiffModel { matches: false, only_pyroclast: noted(self.only_pyroclast, line), ..self }
    }

    /// With a line that only the second side has.
    pub open spec fn right_only(self, line: Seq<char>) -> DiffModel {
        DiffModel { matches: false, only_inferno: noted(self.only_inferno, line), ..self }
    }
}

fn record_difference(differences: &mut Vec<String>, line: String)
    ensures
        views(final(differences)@) == noted(views(old(differences)@), line@),
{
    let ghost before = views(differences@);
    if differences.len() < MAX_REPORTED_DIFFERENCES {
        differences.push(line);
        assert(views(differences@) =~= before.push(line@));
    }
}

/// The line at an index as it reads; nothing behind the last line.
pub open spec fn line_entry(lines: Seq<Seq<char>>, at: int) -> Result<
    Option<EntryModel>,
    Seq<char>,
> {
    if 0 <= at < lines.len() {
        match entry_of(lines[at]) {
            Ok(entry) => Ok(Some(entry)),
            Err(error) => Err(error),
        }
    } else {
        Ok(None)
    }
}

/// What the lines of two sides from some indices on add to a difference. The side whose stack
/// comes first goes on alone; lines with one stack are compared by their counts.
pub open spec fn compared_from(
    left: Seq<Seq<char>>,
    right: Seq<Seq<char>>,
    i: int,
    j: int,
    diff: DiffModel,
) -> Result<DiffModel, Seq<char>>
    decreases left.len() - i + right.len() - j,
{
    if i < 0 || j < 0 || i > left.len() || j > right.len() {
        Ok(diff)
    } else {
        match (line_entry(left, i), line_entry(right, j)) {
            (Err(error), _) => Err(error),
            (_, Err(error)) => Err(error),
            (Ok(None), Ok(None)) => Ok(diff),
            (Ok(Some(a)), Ok(None)) => compared_from(
                left,
                right,
                i + 1,
                j,
                diff.left_only(a.raw),
            ),
            (Ok(None), Ok(Some(b))) => compared_from(
                left,
                right,
                i,
                j + 1,
                diff.right_only(b.raw),
            ),
            (Ok(Some(a)), Ok(Some(b))) => if a.stack == b.stack {
                compared_from(
                    left,
                    right,
                    i + 1,
                    j + 1,
                    if a.count == b.count {
                        diff
                    } else {
                        diff.left_only(a.raw).right_only(b.raw)
                    },
                )
            } else if stack_before(a.stack, b.stack) {
                compared_from(left, right, i + 1, j, diff.left_only(a.raw))
            } else {
                compared_from(left, right, i, j + 1, diff.right_only(b.raw))
            },
        }
    }
}

/// How the lines of two sides differ.
pub open spec fn compared(left: Seq<Seq<char>>, right: Seq<Seq<char>>) -> Result<
    DiffModel,
    Seq<char>,
> {
    compared_from(left, right, 0, 0, no_difference())
}

// ---------------------------------------------------------------------------
// Lines that come one by one
// ---------------------------------------------------------------------------

/// What is known of the next line of a side.
#[derive(Clone, Debug, Eq, PartialEq)]
pub enum NextLine {
    Wanted,
    Ended,
    Held(FoldedEntry),
}

/// What is known of the next line of a side.
#[verifier::ext_equal]
pub enum NextModel {
    Wanted,
    Ended,
    Held(EntryModel),
}

impl View for NextLine {
    type V = NextModel;

    open spec fn view(&self) -> NextModel {
        match *self {
            NextLine::Wanted => NextModel::Wanted,
            NextLine::Ended => NextModel::Ended,
            NextLine::Held(entry) => NextModel::Held(entry@),
        }
    }
}

/// The two sides.
#[derive(Clone, Copy, Debug, Eq, PartialEq, Structural)]
pub enum Side {
    Pyroclast,
    Inferno,
}

/// A comparison of lines that come one by one.
#[derive(Clone, Debug, Eq, PartialEq)]
pub struct FoldedComparison {
    pub left: NextLine,
    pub right: NextLine,
    pub diff: DiffSummary,
}

/// The contents of a [`FoldedComparison`].
#[verifier::ext_equal]
pub struct ProgressModel {
    pub left: NextModel,
    pub right: NextModel,
    pub diff: DiffModel,
}

impl View for FoldedComparison {
    type V = ProgressModel;

    open spec fn view(&self) -> ProgressModel {
        ProgressModel { left: self.left@, right: self.right@, diff: self.diff@ }
    }
}

impl ProgressModel {
    /// The side whose next line is wanted, the first one before the second.
    pub open spec fn wants(self) -> Option<Side> {
        if self.left is Wanted {
            Some(Side::Pyroclast)
        } else if self.right is Wanted {
            Some(Side::Inferno)
        } else {
            None
        }
    }

    /// With the lines that are held compared, where both sides are known.
    pub open spec fn settled(self) -> ProgressModel {
        match (self.left, self.right) {
            (NextModel::Held(a), NextModel::Held(b)) => if a.stack == b.stack {
                ProgressModel {
                    left: NextModel::Wanted,
                    right: NextModel::Wanted,
                    diff: if a.count == b.count {
                        self.diff
                    } else {
                        self.diff.left_only(a.raw).right_only(b.raw)
                    },
                }
            } else if stack_before(a.stack, b.stack) {
                ProgressModel {
                    left: NextModel::Wanted,
                    diff: self.diff.left_only(a.raw),
                    ..self
                }
            } else {
                ProgressModel {
                    right: NextModel::Wanted,
                    diff: self.diff.right_only(b.raw),
                    ..self
                }
            },
            (NextModel::Held(a), NextModel::Ended) => ProgressModel {
                left: NextModel::Wanted,
                diff: self.diff.left_only(a.raw),
                ..self
            },
            (NextModel::Ended, NextModel::Held(b)) => ProgressModel {
                right: NextModel::Wanted,
                diff: self.diff.right_only(b.raw),
                ..self
            },
            _ => self,
        }
    }

    /// With the next line of the side that wants one, or its end.
    pub open spec fn fed(self, line: Option<Seq<char>>) -> Result<ProgressModel, Seq<char>> {
        let next = match line {
            Some(line) => match entry_of(line) {
                Ok(entry) => Ok(NextModel::Held(entry)),
                Err(error) => Err(error),
            },
            None => Ok(NextModel::Ended),
        };
        match (self.wants(), next) {
            (None, _) => Ok(self),
            (_, Err(error)) => Err(error),
            (Some(Side::Pyroclast), Ok(left)) => Ok(ProgressModel { left, ..self }.settled()),
            (Some(Side::Inferno), Ok(right)) => Ok(ProgressModel { right, ..self }.settled()),
        }
    }
}

impl FoldedComparison {
    /// A comparison that has seen no line.
    #[must_use]
    pub fn new() -> (comparison: FoldedComparison)
        ensures
            comparison@ == (ProgressModel {
                left: NextModel::Wanted,
                right: NextModel::Wanted,
                diff: no_difference(),
            }),
    {
        let comparison = FoldedComparison {
            left: NextLine::Wanted,
            right: NextLine::Wanted,
            diff: DiffSummary {
                matches: true,
                only_pyroclast: Vec::new(),
                only_inferno: Vec::new(),
            },
        };
        assert(comparison@.diff =~= no_difference());
        comparison
    }

    /// The side whose next line is wanted; none at the end.
    #[must_use]
    pub fn wanted(&self) -> (side: Option<Side>)
        ensures
            side == self@.wants(),
    {
        match (&self.left, &self.right) {
            (NextLine::Wanted, _) => Some(Side::Pyroclast),
            (_, NextLine::Wanted) => Some(Side::Inferno),
            _ => None,
        }
    }

    fn settle(&mut self)
        ensures
            final(self)@ == old(self)@.settled(),
    {
        let mut left = NextLine::Wanted;
        let mut right = NextLine::Wanted;
        std::mem::swap(&mut left, &mut self.left);
        std::mem::swap(&mut right, &mut self.right);
        match (left, right) {
            (NextLine::Held(a), NextLine::Held(b)) => {
                proof {
                    bytes_order(encode_utf8(a.stack@), encode_utf8(b.stack@));
                }
                if same_text(a.stack.as_str(), b.stack.as_str()) {
                    if a.count != b.count {
                        self.diff.matches = false;
                        record_difference(&mut self.diff.only_pyroclast, a.raw);
                        record_difference(&mut self.diff.only_inferno, b.raw);
                    }
                } else if stack_in_order(a.stack.as_str(), b.stack.as_str()) {
                    self.diff.matches = false;
                    record_difference(&mut self.diff.only_pyroclast, a.raw);
                    self.right = NextLine::Held(b);
                } else {
                    self.diff.matches = false;
                    record_difference(&mut self.diff.only_inferno, b.raw);
                    self.left = NextLine::Held(a);
                }
            },
            (NextLine::Held(a), NextLine::Ended) => {
                self.diff.matches = false;
                record_difference(&mut self.diff.only_pyroclast, a.raw);
                self.right = NextLine::Ended;
            },
            (NextLine::Ended, NextLine::Held(b)) => {
                self.diff.matches = false;
                record_difference(&mut self.diff.only_inferno, b.raw);
                self.left = NextLine::Ended;
            },
            (left, right) => {
                self.left = left;
                self.right = right;
            },
        }
    }

    /// Takes the next line of the side that wants one, or its end.
    pub fn feed(&mut self, line: Option<String>) -> (result: Result<(), String>)
        ensures
            match old(self)@.fed(text_view(line)) {
                Ok(progress) => result is Ok && final(self)@ == progress,
                Err(error) => (result matches Err(text) && text@ == error) && final(self)@
                    == old(self)@,
            },
    {
        let side = match self.wanted() {
            Some(side) => side,
            None => return Ok(()),
        };
        let next = match line {
            Some(line) => match read_folded_entry(line) {
                Ok(entry) => NextLine::Held(entry),
                Err(error) => return Err(error),
            },
            None => NextLine::Ended,
        };
        match side {
            Side::Pyroclast => {
                self.left = next;
            },
            Side::Inferno => {
                self.right = next;
            },
        }
        self.settle();
        Ok(())
    }
}

/// Where a side stands: at the line that is held, or at the next one.
spec fn place(next: NextModel, lines: Seq<Seq<char>>, at: int, place: int) -> bool {
    0 <= place <= at <= lines.len() && match next {
        NextModel::Wanted => place == at,
        NextModel::Ended => place == at && at == lines.len(),
        NextModel::Held(entry) => place + 1 == at && entry_of(lines[place]) == Ok::<
            EntryModel,
            Seq<char>,
        >(entry),
    }
}

spec fn place_of(next: NextModel, at: int) -> int {
    if next is Held {
        at - 1
    } else {
        at
    }
}

spec fn ends(progress: ProgressModel) -> int {
    (if progress.left is Ended {
        1int
    } else {
        0
    }) + (if progress.right is Ended {
        1int
    } else {
        0
    })
}

fn next_line(lines: &Vec<String>, at: usize) -> (line: Option<String>)
    ensures
        line is Some <==> at < lines@.len(),
        line matches Some(text) ==> text@ == lines@[at as int]@,
{
    if at < lines.len() {
        Some(lines[at].clone())
    } else {
        None
    }
}

/// Compares the folded lines of two sides, both ordered by their stacks.
pub fn compare_folded_line_receivers(pyroclast: &Vec<String>, inferno: &Vec<String>) -> (diff:
    Result<DiffSummary, String>)
    ensures
        outcome(diff) == compared(views(pyroclast@), views(inferno@)),
{
    let ghost left = views(pyroclast@);
    let ghost right = views(inferno@);
    let mut comparison = FoldedComparison::new();
    let mut i: usize = 0;
    let mut j: usize = 0;
    let ghost mut p: int = 0;
    let ghost mut q: int = 0;
    let ghost mut ended: int = 0;
    loop
        invariant_except_break
            left == views(pyroclast@),
            right == views(inferno@),
            place(comparison@.left, left, i as int, p),
            place(comparison@.right, right, j as int, q),
            comparison@.settled() == comparison@,
            compared_from(left, right, p, q, comparison@.diff) == compared(left, right),
            ended == ends(comparison@),
        ensures
            compared(left, right) == Ok::<DiffModel, Seq<char>>(comparison@.diff),
        decreases left.len() - p + right.len() - q, 2 - ended, left.len() - i + right.len() - j,
    {
        let ghost before = comparison@;
        match comparison.wanted() {
            None => {
                break ;
            },
            Some(Side::Pyroclast) => {
                let line = next_line(pyroclast, i);
                if let Err(error) = comparison.feed(line) {
                    return Err(error);
                }
                if i < pyroclast.len() {
                    i += 1;
                }
                assert(before.right is Held ==> entry_of(right[q]) is Ok);
            },
            Some(Side::Inferno) => {
                let line = next_line(inferno, j);
                if let Err(error) = comparison.feed(line) {
                    return Err(error);
                }
                if j < inferno.len() {
                    j += 1;
                }
                assert(before.left is Held ==> entry_of(left[p]) is Ok);
            },
        }
        proof {
            p = place_of(comparison@.left, i as int);
            q = place_of(comparison@.right, j as int);
            ended = ends(comparison@);
        }
    }
    Ok(comparison.diff)
}

/// Whether two sides have the same stacks with the same counts, line by line, from some indices
/// on.
pub open spec fn same_from(left: Seq<Seq<char>>, right: Seq<Seq<char>>, i: int, j: int) -> bool {
    &&& left.len() - i == right.len() - j
    &&& forall|k: int|
        i <= k < left.len() ==> folded_line_of(#[trigger] left[k]) == folded_line_of(
            right[k - i + j],
        )
}

proof fn difference_from(
    left: Seq<Seq<char>>,
    right: Seq<Seq<char>>,
    i: int,
    j: int,
    diff: DiffModel,
)
    requires
        0 <= i <= left.len(),
        0 <= j <= right.len(),
        compared_from(left, right, i, j, diff) is Ok,
    ensures
        ({
            let result = compared_from(left, right, i, j, diff)->Ok_0;
            &&& result.matches <==> diff.matches && same_from(left, right, i, j)
            &&& (diff.matches <==> diff.only_pyroclast.len() == 0 && diff.only_inferno.len() == 0)
                ==> (result.matches <==> result.only_pyroclast.len() == 0
                && result.only_inferno.len() == 0)
        }),
    decreases left.len() - i + right.len() - j,
{
    match (line_entry(left, i), line_entry(right, j)) {
        (Ok(Some(a)), Ok(None)) => {
            difference_from(left, right, i + 1, j, diff.left_only(a.raw));
        },
        (Ok(None), Ok(Some(b))) => {
            difference_from(left, right, i, j + 1, diff.right_only(b.raw));
        },
        (Ok(Some(a)), Ok(Some(b))) => {
            readable_lines_have_counts(left[i]);
            readable_lines_have_counts(right[j]);
            if a.stack == b.stack {
                let next = if a.count == b.count {
                    diff
                } else {
                    diff.left_only(a.raw).right_only(b.raw)
                };
                difference_from(left, right, i + 1, j + 1, next);
                if same_from(left, right, i, j) {
                    assert(folded_line_of(left[i]) == folded_line_of(right[j]));
                    assert(same_from(left, right, i + 1, j + 1));
                }
                if a.count == b.count && same_from(left, right, i + 1, j + 1) {
                    assert(same_from(left, right, i, j));
                }
            } else {
                assert(same_from(left, right, i, j) ==> folded_line_of(left[i])
                    == folded_line_of(right[j]));
                if stack_before(a.stack, b.stack) {
                    difference_from(left, right, i + 1, j, diff.left_only(a.raw));
                } else {
                    difference_from(left, right, i, j + 1, diff.right_only(b.raw));
                }
            }
        },
        _ => {},
    }
}

/// A comparison finds a difference just where the two sides do not have the same stacks with the
/// same counts line by line, and then it lists one.
pub proof fn differences_are_found(left: Seq<Seq<char>>, right: Seq<Seq<char>>)
    requires
        compared(left, right) is Ok,
    ensures
        compared(left, right)->Ok_0.matches <==> same_from(left, right, 0, 0),
        compared(left, right)->Ok_0.matches <==> compared(left, right)->Ok_0.only_pyroclast.len()
            == 0 && compared(left, right)->Ok_0.only_inferno.len() == 0,
{
    difference_from(left, right, 0, 0, no_difference());
}

/// A comparison succeeds just where every line of both sides can be read.
pub proof fn readable_sides_are_compared(left: Seq<Seq<char>>, right: Seq<Seq<char>>)
    ensures
        compared(left, right) is Ok <==> (forall|k: int|
            0 <= k < left.len() ==> entry_of(#[trigger] left[k]) is Ok) && (forall|k: int|
            0 <= k < right.len() ==> entry_of(#[trigger] right[k]) is Ok),
{
    success_from(left, right, 0, 0, no_difference());
}

proof fn success_from(
    left: Seq<Seq<char>>,
    right: Seq<Seq<char>>,
    i: int,
    j: int,
    diff: DiffModel,
)
    requires
        0 <= i <= left.len(),
        0 <= j <= right.len(),
    ensures
        compared_from(left, right, i, j, diff) is Ok <==> (forall|k: int|
            i <= k < left.len() ==> entry_of(#[trigger] left[k]) is Ok) && (forall|k: int|
            j <= k < right.len() ==> entry_of(#[trigger] right[k]) is Ok),
    decreases left.len() - i + right.len() - j,
{
    match (line_entry(left, i), line_entry(right, j)) {
        (Ok(Some(a)), Ok(None)) => {
            success_from(left, right, i + 1, j, diff.left_only(a.raw));
        },
        (Ok(None), Ok(Some(b))) => {
            success_from(left, right, i, j + 1, diff.right_only(b.raw));
        },
        (Ok(Some(a)), Ok(Some(b))) => {
            if a.stack == b.stack {
                let next = if a.count == b.count {
                    diff
                } else {
                    diff.left_only(a.raw).right_only(b.raw)
                };
                success_from(left, right, i + 1, j + 1, next);
            } else if stack_before(a.stack, b.stack) {
                success_from(left, right, i + 1, j, diff.left_only(a.raw));
            } else {
                success_from(left, right, i, j + 1, diff.right_only(b.raw));
            }
        },
        (Err(_), _) => {
            assert(entry_of(left[i]) is Err);
        },
        (_, Err(_)) => {
            assert(entry_of(right[j]) is Err);
        },
        _ => {},
    }
}

// ---------------------------------------------------------------------------
// Laws
// ---------------------------------------------------------------------------

/// The lines that are listed for a side are lines of that side, and no more than fit in the list.
pub proof fn listed_lines_are_of_their_side(left: Seq<Seq<char>>, right: Seq<Seq<char>>)
    ensures
        compared(left, right) matches Ok(diff) ==> {
            &&& diff.only_pyroclast.len() <= MAX_REPORTED_DIFFERENCES
            &&& diff.only_inferno.len() <= MAX_REPORTED_DIFFERENCES
            &&& forall|k: int|
                0 <= k < diff.only_pyroclast.len() ==> left.contains(
                    #[trigger] diff.only_pyroclast[k],
                )
            &&& forall|k: int|
                0 <= k < diff.only_inferno.len() ==> right.contains(
                    #[trigger] diff.only_inferno[k],
                )
        },
{
    lines_are_of_their_side(left, right, 0, 0, no_difference());
}

proof fn lines_are_of_their_side(
    left: Seq<Seq<char>>,
    right: Seq<Seq<char>>,
    i: int,
    j: int,
    before: DiffModel,
)
    requires
        before.only_pyroclast.len() <= MAX_REPORTED_DIFFERENCES,
        before.only_inferno.len() <= MAX_REPORTED_DIFFERENCES,
        forall|k: int|
            0 <= k < before.only_pyroclast.len() ==> left.contains(
                #[trigger] before.only_pyroclast[k],
            ),
        forall|k: int|
            0 <= k < before.only_inferno.len() ==> right.contains(#[trigger] before.only_inferno[k]),
    ensures
        compared_from(left, right, i, j, before) matches Ok(diff) ==> {
            &&& diff.only_pyroclast.len() <= MAX_REPORTED_DIFFERENCES
            &&& diff.only_inferno.len() <= MAX_REPORTED_DIFFERENCES
            &&& forall|k: int|
                0 <= k < diff.only_pyroclast.len() ==> left.contains(
                    #[trigger] diff.only_pyroclast[k],
                )
            &&& forall|k: int|
                0 <= k < diff.only_inferno.len() ==> right.contains(
                    #[trigger] diff.only_inferno[k],
                )
        },
    decreases left.len() - i + right.len() - j,
{
    if 0 <= i <= left.len() && 0 <= j <= right.len() {
        if i < left.len() {
            assert(left.contains(left[i]));
        }
        if j < right.len() {
            assert(right.contains(right[j]));
        }
        match (line_entry(left, i), line_entry(right, j)) {
            (Ok(Some(a)), Ok(None)) => {
                lines_are_of_their_side(left, right, i + 1, j, before.left_only(a.raw));
            },
            (Ok(None), Ok(Some(b))) => {
                lines_are_of_their_side(left, right, i, j + 1, before.right_only(b.raw));
            },
            (Ok(Some(a)), Ok(Some(b))) => if a.stack == b.stack {
                let after = if a.count == b.count {
                    before
                } else {
                    before.left_only(a.raw).right_only(b.raw)
                };
                lines_are_of_their_side(left, right, i + 1, j + 1, after);
            } else if stack_before(a.stack, b.stack) {
                lines_are_of_their_side(left, right, i + 1, j, before.left_only(a.raw));
            } else {
                lines_are_of_their_side(left, right, i, j + 1, before.right_only(b.raw));
            },
            _ => {},
        }
    }
}

} // verus!
