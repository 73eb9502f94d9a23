//! Folded stacks that are measured, split into lines and compared while they are written.

use vstd::prelude::*;
use vstd::slice::slice_subrange;
use vstd::string::StringExecFns;
use vstd::utf8::{decode_utf8, valid_utf8};

use crate::benchmarks::comparison::DiffSummary;
use crate::benchmarks::{
    BenchmarkModel, ComparisonModel, FoldBenchmarkReport, FoldComparisonReport,
    StreamingComparisonReport,
};
use crate::process::{CommandModel, CommandSpec};
use crate::sorting::same_bytes;
use crate::text::{
    find_byte, first_from, text_from_utf8, text_from_utf8_lossy, utf8_error, utf8_lossy, views,
};

verus! {

// ---------------------------------------------------------------------------
// Counting
// ---------------------------------------------------------------------------

/// How many line ends stand among the first `count` bytes.
pub open spec fn line_ends(bytes: Seq<u8>, count: int) -> nat
    decreases count,
{
    if count <= 0 {
        0
    } else if bytes[count - 1] == 10 {
        line_ends(bytes, count - 1) + 1
    } else {
        line_ends(bytes, count - 1)
    }
}

/// Two sizes together, up to the largest size.
pub open spec fn capped_size(left: nat, right: nat) -> nat {
    if left + right > usize::MAX {
        usize::MAX as nat
    } else {
        left + right
    }
}

/// A writer whose bytes and line ends are counted.
#[derive(Clone, Debug)]
pub struct CountingWriter<W> {
    pub inner: W,
    pub bytes: usize,
    pub lines: usize,
}

impl<W> CountingWriter<W> {
    /// Nothing was written yet.
    pub fn new(inner: W) -> (writer: CountingWriter<W>)
        ensures
            writer.inner == inner,
            writer.bytes == 0,
            writer.lines == 0,
    {
        CountingWriter { inner, bytes: 0, lines: 0 }
    }

    /// Counts bytes that the inner writer took.
    pub fn count(&mut self, written: &[u8])
        ensures
            final(self).inner == old(self).inner,
            final(self).bytes == capped_size(old(self).bytes as nat, written@.len()),
            final(self).lines == capped_size(
                old(self).lines as nat,
                line_ends(written@, written@.len() as int),
            ),
    {
        let total: usize = written.len();
        let mut ends: usize = 0;
        let mut at: usize = 0;
        while at < total
            invariant
                at <= total,
                total == written@.len(),
                ends <= at,
                ends == line_ends(written@, at as int),
            decreases total - at,
        {
            if written[at] == 10 {
                ends += 1;
            }
            at += 1;
        }
        self.bytes = self.bytes.saturating_add(total);
        self.lines = self.lines.saturating_add(ends);
    }

    /// How many bytes and line ends were written.
    #[must_use]
    pub fn counts(&self) -> (counts: (usize, usize))
        ensures
            counts == (self.bytes, self.lines),
    {
        (self.bytes, self.lines)
    }

    /// The inner writer, and how many bytes and line ends were written.
    #[must_use]
    pub fn into_inner_and_counts(self) -> (parts: (W, (usize, usize)))
        ensures
            parts == (self.inner, (self.bytes, self.lines)),
    {
        (self.inner, (self.bytes, self.lines))
    }
}

/// Bytes count the same whether they are written at once or in two parts.
pub proof fn parts_count_together(bytes: nat, lines: nat, first: Seq<u8>, second: Seq<u8>)
    ensures
        capped_size(capped_size(bytes, first.len()), second.len()) == capped_size(
            bytes,
            (first + second).len(),
        ),
        capped_size(
            capped_size(lines, line_ends(first, first.len() as int)),
            line_ends(second, second.len() as int),
        ) == capped_size(lines, line_ends(first + second, (first + second).len() as int)),
{
    line_ends_of_parts(first, second, second.len() as int);
    line_ends_of_start(first, second, first.len() as int);
}

proof fn line_ends_of_start(first: Seq<u8>, second: Seq<u8>, count: int)
    requires
        0 <= count <= first.len(),
    ensures
        line_ends(first + second, count) == line_ends(first, count),
    decreases count,
{
    if count > 0 {
        line_ends_of_start(first, second, count - 1);
    }
}

proof fn line_ends_of_parts(first: Seq<u8>, second: Seq<u8>, count: int)
    requires
        0 <= count <= second.len(),
    ensures
        line_ends(first + second, first.len() + count) == line_ends(first, first.len() as int)
            + line_ends(second, count),
    decreases count,
{
    if count > 0 {
        line_ends_of_parts(first, second, count - 1);
        assert((first + second)[first.len() + count - 1] == second[count - 1]);
    } else {
        line_ends_of_start(first, second, first.len() as int);
    }
}

// ---------------------------------------------------------------------------
// Lines
// ---------------------------------------------------------------------------

/// The lines that bytes from an index on end, and the bytes behind them; or the lines in front of
/// one that is no text, and why it is none.
pub open spec fn ended_lines(bytes: Seq<u8>, from: int) -> (
    Seq<Seq<char>>,
    Result<Seq<u8>, Seq<char>>,
)
    decreases bytes.len() - from,
{
    let end = first_from(bytes, 10u8, from);
    if from < 0 || end < from || end >= bytes.len() {
        (Seq::empty(), Ok(bytes.subrange(from, bytes.len() as int)))
    } else {
        let line = bytes.subrange(from, end);
        if valid_utf8(line) {
            let (rest, left) = ended_lines(bytes, end + 1);
            (seq![decode_utf8(line)] + rest, left)
        } else {
            (Seq::empty(), Err(utf8_error(line)))
        }
    }
}

/// Lines that were ended, and why the next one is no text.
#[derive(Clone, Debug, Eq, PartialEq)]
pub struct EndedLines {
    pub lines: Vec<String>,
    pub error: Option<String>,
}

/// Splits what is written into lines.
#[derive(Clone, Debug, Eq, PartialEq)]
pub struct LineChannelWriter {
    pub buffer: Vec<u8>,
}

impl LineChannelWriter {
    /// Nothing was written yet.
    #[must_use]
    pub fn new() -> (writer: LineChannelWriter)
        ensures
            writer.buffer@ == Seq::<u8>::empty(),
    {
        let writer = LineChannelWriter { buffer: Vec::new() };
        assert(writer.buffer@ =~= Seq::empty());
        writer
    }

    /// Takes bytes and hands out the lines that they end. Where a line is no text, nothing
    /// leaves the buffer.
    pub fn write(&mut self, written: &Vec<u8>) -> (ended: EndedLines)
        ensures
            ({
                let all = old(self).buffer@ + written@;
                let (lines, left) = ended_lines(all, 0);
                &&& views(ended.lines@) == lines
                &&& match left {
                    Ok(rest) => ended.error is None && final(self).buffer@ == rest,
                    Err(error) => (ended.error matches Some(text) && text@ == error)
                        && final(self).buffer@ == all,
                }
            }),
    {
        let mut more = vstd::slice::slice_to_vec(written.as_slice());
        self.buffer.append(&mut more);
        let ghost all = self.buffer@;
        let mut lines: Vec<String> = Vec::new();
        let mut consumed: usize = 0;
        let total: usize = self.buffer.len();
        assert(views(lines@) + ended_lines(all, 0).0 =~= ended_lines(all, 0).0);
        loop
            invariant_except_break
                all == old(self).buffer@ + written@,
                all == self.buffer@,
                total == all.len(),
                consumed <= total,
                views(lines@) + ended_lines(all, consumed as int).0 == ended_lines(all, 0).0,
                ended_lines(all, consumed as int).1 == ended_lines(all, 0).1,
            ensures
                all == self.buffer@,
                consumed <= all.len(),
                views(lines@) == ended_lines(all, 0).0,
                ended_lines(all, 0).1 == Ok::<Seq<u8>, Seq<char>>(
                    all.subrange(consumed as int, all.len() as int),
                ),
            decreases total - consumed,
        {
            let end: usize = find_byte(self.buffer.as_slice(), 10, consumed);
            if end >= total {
                assert(views(lines@) + Seq::<Seq<char>>::empty() =~= views(lines@));
                break ;
            }
            let line = text_from_utf8(slice_subrange(self.buffer.as_slice(), consumed, end));
            let ghost before = views(lines@);
            let ghost rest = ended_lines(all, end + 1).0;
            match line {
                Ok(text) => {
                    lines.push(text);
                    proof {
                        assert(views(lines@) =~= before.push(text@));
                        assert(before + (seq![text@] + rest) =~= before.push(text@) + rest);
                    }
                },
                Err(error) => {
                    assert(before + Seq::<Seq<char>>::empty() =~= before);
                    return EndedLines { lines, error: Some(error) };
                },
            }
            consumed = end + 1;
        }
        if consumed > 0 {
            let rest = vstd::slice::slice_to_vec(
                slice_subrange(self.buffer.as_slice(), consumed, self.buffer.len()),
            );
            self.buffer = rest;
        } else {
            assert(all.subrange(0, all.len() as int) =~= all);
        }
        EndedLines { lines, error: None }
    }
}

proof fn first_from_shifts(bytes: Seq<u8>, from: int, at: int)
    requires
        0 <= from,
        0 <= at,
        from + at <= bytes.len(),
    ensures
        first_from(bytes, 10u8, from + at) == from + first_from(
            bytes.subrange(from, bytes.len() as int),
            10u8,
            at,
        ),
        from + at <= first_from(bytes, 10u8, from + at) <= bytes.len(),
    decreases bytes.len() - from - at,
{
    if from + at < bytes.len() {
        assert(bytes.subrange(from, bytes.len() as int)[at] == bytes[from + at]);
        if bytes[from + at] != 10 {
            first_from_shifts(bytes, from, at + 1);
        }
    }
}

proof fn ended_lines_shift(bytes: Seq<u8>, from: int, at: int)
    requires
        0 <= from,
        0 <= at,
        from + at <= bytes.len(),
    ensures
        ended_lines(bytes, from + at) == ended_lines(
            bytes.subrange(from, bytes.len() as int),
            at,
        ),
    decreases bytes.len() - from - at,
{
    let rest = bytes.subrange(from, bytes.len() as int);
    let end = first_from(rest, 10u8, at);
    first_from_shifts(bytes, from, at);
    if end < rest.len() {
        assert(rest.subrange(at, end) =~= bytes.subrange(from + at, from + end));
        ended_lines_shift(bytes, from, end + 1);
    } else {
        assert(rest.subrange(at, rest.len() as int) =~= bytes.subrange(
            from + at,
            bytes.len() as int,
        ));
    }
}

proof fn first_from_extends(first: Seq<u8>, second: Seq<u8>, from: int)
    requires
        0 <= from <= first.len(),
    ensures
        from <= first_from(first, 10u8, from) <= first.len(),
        first_from(first, 10u8, from) < first.len() ==> first_from(first + second, 10u8, from)
            == first_from(first, 10u8, from),
    decreases first.len() - from,
{
    if from < first.len() {
        assert((first + second)[from] == first[from]);
        if first[from] != 10 {
            first_from_extends(first, second, from + 1);
        }
    }
}

proof fn ended_lines_go_on(first: Seq<u8>, second: Seq<u8>, from: int)
    requires
        0 <= from <= first.len(),
        ended_lines(first, from).1 is Ok,
    ensures
        ended_lines(first + second, from).0 == ended_lines(first, from).0 + ended_lines(
            ended_lines(first, from).1->Ok_0 + second,
            0,
        ).0,
        ended_lines(first + second, from).1 == ended_lines(
            ended_lines(first, from).1->Ok_0 + second,
            0,
        ).1,
    decreases first.len() - from,
{
    let all = first + second;
    let end = first_from(first, 10u8, from);
    first_from_extends(first, second, from);
    if end < first.len() {
        let line = first.subrange(from, end);
        assert(line =~= all.subrange(from, end));
        ended_lines_go_on(first, second, end + 1);
        let rest = ended_lines(first, end + 1).1->Ok_0;
        let more = ended_lines(rest + second, 0).0;
        assert(seq![decode_utf8(line)] + (ended_lines(first, end + 1).0 + more) =~= (seq![
            decode_utf8(line),
        ] + ended_lines(first, end + 1).0) + more);
    } else {
        let rest = first.subrange(from, first.len() as int);
        ended_lines_shift(all, from, 0);
        assert(all.subrange(from, all.len() as int) =~= rest + second);
        let more = ended_lines(rest + second, 0).0;
        assert(Seq::<Seq<char>>::empty() + more =~= more);
    }
}

/// What is written in two parts gives the lines that it gives at once, where the first part ends
/// no line that is no text.
pub proof fn parts_give_the_same_lines(buffer: Seq<u8>, first: Seq<u8>, second: Seq<u8>)
    requires
        ended_lines(buffer + first, 0).1 is Ok,
    ensures
        ({
            let (lines, left) = ended_lines(buffer + first, 0);
            let (more, end) = ended_lines(left->Ok_0 + second, 0);
            ended_lines(buffer + (first + second), 0) == (lines + more, end)
        }),
{
    assert(buffer + (first + second) =~= (buffer + first) + second);
    ended_lines_go_on(buffer + first, second, 0);
}

// ---------------------------------------------------------------------------
// Digests
// ---------------------------------------------------------------------------

/// The state of the BLAKE3 hash of bytes.
#[verifier::external_type_specification]
#[verifier::external_body]
pub struct ExHasher(blake3::Hasher);

/// The bytes that a hasher has taken.
pub uninterp spec fn absorbed(hasher: blake3::Hasher) -> Seq<u8>;

/// The BLAKE3 hash of bytes.
pub uninterp spec fn blake3_hash(bytes: Seq<u8>) -> Seq<u8>;

/// `blake3::Hasher::new`: a hasher that has taken no bytes.
#[verifier::external_body]
fn new_hasher() -> (hasher: blake3::Hasher)
    ensures
        absorbed(hasher) == Seq::<u8>::empty(),
{
    blake3::Hasher::new()
}

/// `blake3::Hasher::update`: the hasher takes more bytes behind those that it has. The hash is
/// made for fewer than 2^64 bytes.
#[verifier::external_body]
fn absorb(hasher: &mut blake3::Hasher, bytes: &[u8])
    requires
        absorbed(*old(hasher)).len() + bytes@.len() <= u64::MAX,
    ensures
        absorbed(*final(hasher)) == absorbed(*old(hasher)) + bytes@,
{
    hasher.update(bytes);
}

/// `blake3::Hasher::finalize`: the hash of the bytes taken, which depends on nothing else. What
/// the hash is, is not spelled out.
#[verifier::external_body]
fn finished_hash(hasher: &blake3::Hasher) -> (hash: Vec<u8>)
    ensures
        hash@ == blake3_hash(absorbed(*hasher)),
{
    hasher.finalize().as_bytes().to_vec()
}

/// How long a picture is, and its hash.
#[derive(Clone, Debug, Eq, PartialEq)]
pub struct SvgDigest {
    pub bytes: usize,
    pub hash: Vec<u8>,
}

/// Makes the digest of a picture that comes in parts.
pub struct SvgHasher {
    pub hasher: blake3::Hasher,
    pub bytes: usize,
}

impl View for SvgHasher {
    type V = Seq<u8>;

    open spec fn view(&self) -> Seq<u8> {
        absorbed(self.hasher)
    }
}

impl SvgHasher {
    /// Whether the bytes are counted rightly.
    pub open spec fn wf(&self) -> bool {
        self.bytes == self@.len()
    }

    /// Nothing of the picture came yet.
    #[must_use]
    pub fn new() -> (hasher: SvgHasher)
        ensures
            hasher.wf(),
            hasher@ == Seq::<u8>::empty(),
    {
        SvgHasher { hasher: new_hasher(), bytes: 0 }
    }

    /// Takes the next part of the picture.
    pub fn update(&mut self, part: &[u8])
        requires
            old(self).wf(),
            old(self).bytes + part@.len() <= usize::MAX,
        ensures
            final(self).wf(),
            final(self)@ == old(self)@ + part@,
            final(self).bytes == old(self).bytes + part@.len(),
    {
        absorb(&mut self.hasher, part);
        self.bytes = self.bytes + part.len();
    }

    /// The digest of the picture.
    #[must_use]
    pub fn finish(&self) -> (digest: SvgDigest)
        requires
            self.wf(),
        ensures
            digest.bytes == self@.len(),
            digest.hash@ == blake3_hash(self@),
    {
        SvgDigest { bytes: self.bytes, hash: finished_hash(&self.hasher) }
    }
}

// ---------------------------------------------------------------------------
// Reports
// ---------------------------------------------------------------------------

/// A measured fold and the digest of its picture.
#[derive(Clone, Debug, Eq, PartialEq)]
pub struct ProducerResult {
    pub report: FoldBenchmarkReport,
    pub svg: SvgDigest,
}

/// The command that collapses a script: that of a file, or what is written to the command.
#[must_use]
pub fn collapse_stream_command(perf_script: Option<&str>) -> (command: CommandSpec)
    ensures
        command@ == match perf_script {
            Some(path) => CommandModel::of("inferno-collapse-perf"@).with(path@),
            None => CommandModel::of("inferno-collapse-perf"@),
        },
{
    let command = CommandSpec::new("inferno-collapse-perf");
    match perf_script {
        Some(path) => command.arg(path),
        None => command,
    }
}

/// What became of a program that ended: an error with its status and what it wrote on its error
/// stream, unless it succeeded.
pub fn finished_program(program: &str, success: bool, status: &str, stderr: &[u8]) -> (result: Result<
    (),
    String,
>)
    ensures
        success ==> result is Ok,
        !success ==> (result matches Err(error) && error@ == program@ + " exited with "@ + status@
            + ": "@ + utf8_lossy(stderr@)),
{
    if success {
        return Ok(());
    }
    let mut error = program.to_string();
    error.append(" exited with ");
    error.append(status);
    error.append(": ");
    let written = text_from_utf8_lossy(stderr);
    error.append(written.as_str());
    Err(error)
}

/// A measured fold: of a script where one was read, else of a recording.
#[must_use]
pub fn producer_result(
    perf_data: &str,
    perf_script: Option<&str>,
    elapsed_nanos: u128,
    folded: (usize, usize),
    svg: SvgDigest,
) -> (produced: ProducerResult)
    ensures
        produced.report@ == (BenchmarkModel {
            input: match perf_script {
                Some(path) => path@,
                None => perf_data@,
            },
            elapsed_nanos,
            folded_bytes: folded.0 as nat,
            folded_lines: folded.1 as nat,
        }),
        produced.svg == svg,
{
    let input = match perf_script {
        Some(path) => path.to_string(),
        None => perf_data.to_string(),
    };
    ProducerResult {
        report: FoldBenchmarkReport {
            input,
            elapsed_nanos,
            folded_bytes: folded.0,
            folded_lines: folded.1,
        },
        svg,
    }
}

/// Compares two folds by the differences of their lines and the digests of their pictures.
#[must_use]
pub fn streaming_report(
    pyroclast: ProducerResult,
    inferno: ProducerResult,
    diff: DiffSummary,
) -> (report: StreamingComparisonReport)
    ensures
        report.pyroclast_fold == pyroclast.report,
        report.inferno_fold == inferno.report,
        report.comparison@ == (ComparisonModel {
            pyroclast_folded_lines: pyroclast.report.folded_lines as nat,
            inferno_folded_lines: inferno.report.folded_lines as nat,
            matches: diff.matches && pyroclast.svg.hash@ == inferno.svg.hash@,
            svg_matches: pyroclast.svg.hash@ == inferno.svg.hash@,
            pyroclast_svg_bytes: pyroclast.svg.bytes as nat,
            inferno_svg_bytes: inferno.svg.bytes as nat,
            only_pyroclast: diff@.only_pyroclast,
            only_inferno: diff@.only_inferno,
        }),
{
    let svg_matches = same_bytes(pyroclast.svg.hash.as_slice(), inferno.svg.hash.as_slice());
    let comparison = FoldComparisonReport {
        pyroclast_folded_lines: pyroclast.report.folded_lines,
        inferno_folded_lines: inferno.report.folded_lines,
        matches: diff.matches && svg_matches,
        svg_matches,
        pyroclast_svg_bytes: pyroclast.svg.bytes,
        inferno_svg_bytes: inferno.svg.bytes,
        only_pyroclast: diff.only_pyroclast,
        only_inferno: diff.only_inferno,
    };
    StreamingComparisonReport {
        pyroclast_fold: pyroclast.report,
        inferno_fold: inferno.report,
        comparison,
    }
}

} // verus!
