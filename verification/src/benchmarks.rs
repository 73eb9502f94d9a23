//! Measured folds, and the comparison of folded stacks with those of another tool.

use vstd::prelude::*;
use vstd::string::StringExecFns;

use crate::benchmarks::counts::{compare_folded, tools_compared};
use crate::benchmarks::streams::{capped_size, line_ends, CountingWriter};
use crate::perfdata::accumulate::FoldOptions;
use crate::perfdata::fold::{fold_perfdata_rounds, is_folded_text, streamed_of};
use crate::perfdata::render::{symbols_view, symbols_wf};
use crate::perfdata::unwinding::ObjectStore;
use crate::process::{push_status, status_text, CommandModel, CommandOutput, CommandSpec};
use crate::symbols::SymbolTable;
use crate::text::{
    decimal, lines_from, lines_of, outcome, push_decimal, same_text, text_from_utf8_lossy,
    text_view, utf8_lossy, views,
};

pub mod comparison;
pub mod counts;
pub mod streams;

verus! {

// ---------------------------------------------------------------------------
// Arguments
// ---------------------------------------------------------------------------

/// What to measure.
#[derive(Clone, Debug, Eq, PartialEq)]
pub struct BenchArgs {
    pub perf_data: Option<String>,
    pub perf_script: Option<String>,
    pub export_perf_script: Option<String>,
    pub symbols: bool,
}

/// The contents of [`BenchArgs`].
#[verifier::ext_equal]
pub struct BenchModel {
    pub perf_data: Option<Seq<char>>,
    pub perf_script: Option<Seq<char>>,
    pub export_perf_script: Option<Seq<char>>,
    pub symbols: bool,
}

impl View for BenchArgs {
    type V = BenchModel;

    open spec fn view(&self) -> BenchModel {
        BenchModel {
            perf_data: text_view(self.perf_data),
            perf_script: text_view(self.perf_script),
            export_perf_script: text_view(self.export_perf_script),
            symbols: self.symbols,
        }
    }
}

impl Default for BenchArgs {
    fn default() -> (args: BenchArgs)
        ensures
            args@ == no_bench(),
    {
        BenchArgs { perf_data: None, perf_script: None, export_perf_script: None, symbols: false }
    }
}

/// Nothing to measure.
pub open spec fn no_bench() -> BenchModel {
    BenchModel { perf_data: None, perf_script: None, export_perf_script: None, symbols: false }
}

/// The argument at an index, if there is one.
pub open spec fn arg_at(args: Seq<Seq<char>>, at: int) -> Option<Seq<char>> {
    if 0 <= at < args.len() {
        Some(args[at])
    } else {
        None
    }
}

/// What the arguments from an index on make of those in front of them: two options take the
/// argument behind them, one stands alone, and any other argument names the recording.
pub open spec fn bench_from(args: Seq<Seq<char>>, at: int, parsed: BenchModel) -> BenchModel
    decreases args.len() + 1 - at,
{
    if at < 0 || at >= args.len() {
        parsed
    } else if args[at] == "--perf-script"@ {
        bench_from(args, at + 2, BenchModel { perf_script: arg_at(args, at + 1), ..parsed })
    } else if args[at] == "--export-perf-script"@ {
        bench_from(args, at + 2, BenchModel { export_perf_script: arg_at(args, at + 1), ..parsed })
    } else if args[at] == "--symbols"@ {
        bench_from(args, at + 1, BenchModel { symbols: true, ..parsed })
    } else {
        bench_from(args, at + 1, BenchModel { perf_data: Some(args[at]), ..parsed })
    }
}

fn copy_arg(args: &Vec<String>, at: usize) -> (arg: Option<String>)
    ensures
        text_view(arg) == arg_at(views(args@), at as int),
{
    if at < args.len() {
        Some(args[at].clone())
    } else {
        None
    }
}

impl BenchArgs {
    /// Reads arguments.
    #[must_use]
    pub fn parse(args: &Vec<String>) -> (parsed: BenchArgs)
        ensures
            parsed@ == bench_from(views(args@), 0, no_bench()),
    {
        let mut parsed = BenchArgs::default();
        let total: usize = args.len();
        let mut at: usize = 0;
        while at < total
            invariant
                total == args@.len(),
                bench_from(views(args@), at as int, parsed@) == bench_from(
                    views(args@),
                    0,
                    no_bench(),
                ),
            decreases total - at,
        {
            let step: usize = if same_text(args[at].as_str(), "--perf-script") {
                parsed.perf_script = copy_arg(args, at + 1);
                2
            } else if same_text(args[at].as_str(), "--export-perf-script") {
                parsed.export_perf_script = copy_arg(args, at + 1);
                2
            } else if same_text(args[at].as_str(), "--symbols") {
                parsed.symbols = true;
                1
            } else {
                parsed.perf_data = Some(args[at].clone());
                1
            };
            if step > total - at {
                assert(bench_from(views(args@), at + 2, parsed@) == parsed@);
                return parsed;
            }
            at += step;
        }
        parsed
    }
}

// ---------------------------------------------------------------------------
// Reports
// ---------------------------------------------------------------------------

/// How long a fold took and how much it gave.
#[derive(Clone, Debug, Eq, PartialEq)]
pub struct FoldBenchmarkReport {
    pub input: String,
    pub elapsed_nanos: u128,
    pub folded_bytes: usize,
    pub folded_lines: usize,
}

/// The contents of a [`FoldBenchmarkReport`].
#[verifier::ext_equal]
pub struct BenchmarkModel {
    pub input: Seq<char>,
    pub elapsed_nanos: u128,
    pub folded_bytes: nat,
    pub folded_lines: nat,
}

impl View for FoldBenchmarkReport {
    type V = BenchmarkModel;

    open spec fn view(&self) -> BenchmarkModel {
        BenchmarkModel {
            input: self.input@,
            elapsed_nanos: self.elapsed_nanos,
            folded_bytes: self.folded_bytes as nat,
            folded_lines: self.folded_lines as nat,
        }
    }
}

/// How the folded stacks of two tools differ, and whether their pictures do.
#[derive(Clone, Debug, Eq, PartialEq)]
pub struct FoldComparisonReport {
    pub pyroclast_folded_lines: usize,
    pub inferno_folded_lines: usize,
    pub matches: bool,
    pub svg_matches: bool,
    pub pyroclast_svg_bytes: usize,
    pub inferno_svg_bytes: usize,
    pub only_pyroclast: Vec<String>,
    pub only_inferno: Vec<String>,
}

/// The contents of a [`FoldComparisonReport`].
#[verifier::ext_equal]
pub struct ComparisonModel {
    pub pyroclast_folded_lines: nat,
    pub inferno_folded_lines: nat,
    pub matches: bool,
    pub svg_matches: bool,
    pub pyroclast_svg_bytes: nat,
    pub inferno_svg_bytes: nat,
    pub only_pyroclast: Seq<Seq<char>>,
    pub only_inferno: Seq<Seq<char>>,
}

impl View for FoldComparisonReport {
    type V = ComparisonModel;

    open spec fn view(&self) -> ComparisonModel {
        ComparisonModel {
            pyroclast_folded_lines: self.pyroclast_folded_lines as nat,
            inferno_folded_lines: self.inferno_folded_lines as nat,
            matches: self.matches,
            svg_matches: self.svg_matches,
            pyroclast_svg_bytes: self.pyroclast_svg_bytes as nat,
            inferno_svg_bytes: self.inferno_svg_bytes as nat,
            only_pyroclast: views(self.only_pyroclast@),
            only_inferno: views(self.only_inferno@),
        }
    }
}

/// Two measured folds and how they compare.
#[derive(Clone, Debug, Eq, PartialEq)]
pub struct StreamingComparisonReport {
    pub pyroclast_fold: FoldBenchmarkReport,
    pub inferno_fold: FoldBenchmarkReport,
    pub comparison: FoldComparisonReport,
}

/// How folds are measured: by periods.
#[must_use]
pub fn benchmark_fold_options() -> (options: FoldOptions)
    ensures
        options == (FoldOptions { count_periods: true, inline: false }),
{
    FoldOptions { count_periods: true, inline: false }
}

/// The command that folds with the other tool.
#[must_use]
pub fn collapse_command(input: &str) -> (command: CommandSpec)
    ensures
        command@ == CommandModel::of("inferno-collapse-perf"@).with(input@),
{
    CommandSpec::new("inferno-collapse-perf").arg(input)
}

/// How the failure of a tool is told, without what it wrote.
pub open spec fn tool_error_text(tool: Seq<char>, status: Option<i32>) -> Seq<char> {
    tool + " exited with "@ + status_text(status)
}

/// What a tool wrote, unless it failed.
pub fn tool_output(tool: &str, output: CommandOutput) -> (result: Result<Vec<u8>, String>)
    ensures
        outcome(result) == if output.succeeded() {
            Ok(output.stdout@)
        } else {
            Err(tool_error_text(tool@, output.status_code))
        },
{
    if output.is_success() {
        return Ok(output.stdout);
    }
    let mut error = tool.to_string();
    error.append(" exited with ");
    push_status(&mut error, output.status_code);
    Err(error)
}

/// Measures a fold with the other tool by what the tool wrote.
pub fn run_inferno_collapse_benchmark(
    input: &str,
    elapsed_nanos: u128,
    output: CommandOutput,
) -> (report: Result<FoldBenchmarkReport, String>)
    ensures
        outcome(report) == if output.succeeded() {
            Ok(
                BenchmarkModel {
                    input: input@,
                    elapsed_nanos,
                    folded_bytes: output.stdout@.len(),
                    folded_lines: lines_from(utf8_lossy(output.stdout@), 0).len(),
                },
            )
        } else {
            Err(tool_error_text("inferno-collapse-perf"@, output.status_code))
        },
{
    match tool_output("inferno-collapse-perf", output) {
        Ok(stdout) => {
            let folded = text_from_utf8_lossy(stdout.as_slice());
            let folded_lines: usize = lines_of(folded.as_str()).len();
            Ok(
                FoldBenchmarkReport {
                    input: input.to_string(),
                    elapsed_nanos,
                    folded_bytes: stdout.len(),
                    folded_lines,
                },
            )
        },
        Err(error) => Err(error),
    }
}

/// A truth value in words.
pub open spec fn truth(value: bool) -> Seq<char> {
    if value {
        "true"@
    } else {
        "false"@
    }
}

/// A line with a key, made of a name and a field, and a value.
pub open spec fn keyed_line(name: Seq<char>, field: Seq<char>, value: Seq<char>) -> Seq<char> {
    name + field + value + "\n"@
}

/// The text of a comparison.
pub open spec fn comparison_text(name: Seq<char>, report: ComparisonModel) -> Seq<char> {
    keyed_line(name, ".matches="@, truth(report.matches)) + keyed_line(
        name,
        ".svg_matches="@,
        truth(report.svg_matches),
    ) + keyed_line(name, ".pyroclast_folded_lines="@, decimal(report.pyroclast_folded_lines))
        + keyed_line(name, ".inferno_folded_lines="@, decimal(report.inferno_folded_lines))
        + keyed_line(name, ".pyroclast_svg_bytes="@, decimal(report.pyroclast_svg_bytes))
        + keyed_line(name, ".inferno_svg_bytes="@, decimal(report.inferno_svg_bytes)) + keyed_line(
        name,
        ".only_pyroclast="@,
        decimal(report.only_pyroclast.len()),
    ) + keyed_line(name, ".only_inferno="@, decimal(report.only_inferno.len()))
}

fn push_truth(out: &mut String, name: &str, field: &str, value: bool)
    ensures
        final(out)@ == old(out)@ + keyed_line(name@, field@, truth(value)),
{
    let ghost start = out@;
    out.append(name);
    out.append(field);
    if value {
        out.append("true");
    } else {
        out.append("false");
    }
    out.append("\n");
    assert(out@ =~= start + keyed_line(name@, field@, truth(value)));
}

fn push_size(out: &mut String, name: &str, field: &str, value: usize)
    ensures
        final(out)@ == old(out)@ + keyed_line(name@, field@, decimal(value as nat)),
{
    let ghost start = out@;
    out.append(name);
    out.append(field);
    push_decimal(out, value as u128);
    out.append("\n");
    assert(out@ =~= start + keyed_line(name@, field@, decimal(value as nat)));
}

/// The text of a comparison.
#[must_use]
pub fn format_comparison_report(name: &str, report: &FoldComparisonReport) -> (text: String)
    ensures
        text@ == comparison_text(name@, report@),
{
    let mut text = String::new();
    push_truth(&mut text, name, ".matches=", report.matches);
    push_truth(&mut text, name, ".svg_matches=", report.svg_matches);
    push_size(&mut text, name, ".pyroclast_folded_lines=", report.pyroclast_folded_lines);
    push_size(&mut text, name, ".inferno_folded_lines=", report.inferno_folded_lines);
    push_size(&mut text, name, ".pyroclast_svg_bytes=", report.pyroclast_svg_bytes);
    push_size(&mut text, name, ".inferno_svg_bytes=", report.inferno_svg_bytes);
    push_size(&mut text, name, ".only_pyroclast=", report.only_pyroclast.len());
    push_size(&mut text, name, ".only_inferno=", report.only_inferno.len());
    assert(text@ =~= comparison_text(name@, report@));
    text
}

/// The text of a measured fold.
#[must_use]
pub fn format_benchmark_report(report: &FoldBenchmarkReport) -> (text: String)
    ensures
        text@ == keyed_line("input"@, "="@, report.input@) + keyed_line(
            "elapsed_ms"@,
            "="@,
            decimal((report.elapsed_nanos / 1_000_000) as nat),
        ) + keyed_line("folded_bytes"@, "="@, decimal(report.folded_bytes as nat)) + keyed_line(
            "folded_lines"@,
            "="@,
            decimal(report.folded_lines as nat),
        ),
{
    let mut text = "input".to_string();
    text.append("=");
    text.append(report.input.as_str());
    text.append("\n");
    let ghost first = text@;
    text.append("elapsed_ms");
    text.append("=");
    push_decimal(&mut text, report.elapsed_nanos / 1_000_000);
    text.append("\n");
    assert(text@ =~= first + keyed_line(
        "elapsed_ms"@,
        "="@,
        decimal((report.elapsed_nanos / 1_000_000) as nat),
    ));
    push_size(&mut text, "folded_bytes", "=", report.folded_bytes);
    push_size(&mut text, "folded_lines", "=", report.folded_lines);
    text
}

// ---------------------------------------------------------------------------
// Folds
// ---------------------------------------------------------------------------

/// Whether a report measures a folded text. The time is left at zero.
pub open spec fn measures(report: FoldBenchmarkReport, input: Seq<char>, folded: Seq<u8>) -> bool {
    &&& report.input@ == input
    &&& report.elapsed_nanos == 0
    &&& report.folded_bytes == capped_size(0, folded.len())
    &&& report.folded_lines == capped_size(0, line_ends(folded, folded.len() as int))
}

/// Folds a recording and measures what comes out. The time is for the caller to fill in.
///
/// # Errors
///
/// Returns an error when the recording cannot be parsed.
pub fn run_fold_benchmark(input: &str, bytes: &[u8], objects: &ObjectStore) -> (report: Result<
    FoldBenchmarkReport,
    String,
>)
    requires
        objects.images.wf(),
    ensures
        match (
            report,
            streamed_of(
                bytes@,
                (FoldOptions { count_periods: true, inline: false }),
                objects@,
                None,
            ),
        ) {
            (Ok(report), Ok(counts)) => exists|folded: Seq<char>| #[trigger]
                is_folded_text(folded, counts) && measures(
                    report,
                    input@,
                    vstd::utf8::encode_utf8(folded),
                ),
            (Err(error), Err(told)) => error@ == told,
            _ => false,
        },
{
    run_fold_benchmark_with_runner(input, bytes, objects, None)
}

/// Folds a recording, with the symbols of a table where there is one, and measures what comes
/// out. The time is for the caller to fill in.
///
/// # Errors
///
/// Returns an error when the recording cannot be parsed.
pub fn run_fold_benchmark_with_runner(
    input: &str,
    bytes: &[u8],
    objects: &ObjectStore,
    symbols: Option<&SymbolTable>,
) -> (report: Result<FoldBenchmarkReport, String>)
    requires
        objects.images.wf(),
        symbols_wf(symbols),
    ensures
        match (
            report,
            streamed_of(
                bytes@,
                (FoldOptions { count_periods: true, inline: false }),
                objects@,
                symbols_view(symbols),
            ),
        ) {
            (Ok(report), Ok(counts)) => exists|folded: Seq<char>| #[trigger]
                is_folded_text(folded, counts) && measures(
                    report,
                    input@,
                    vstd::utf8::encode_utf8(folded),
                ),
            (Err(error), Err(told)) => error@ == told,
            _ => false,
        },
{
    let folded = match fold_perfdata_rounds(bytes, benchmark_fold_options(), objects, symbols) {
        Ok(folded) => folded,
        Err(error) => return Err(error),
    };
    let mut writer = CountingWriter::new(());
    writer.count(folded.as_str().as_bytes());
    let (folded_bytes, folded_lines) = writer.counts();
    Ok(
        FoldBenchmarkReport {
            input: input.to_string(),
            elapsed_nanos: 0,
            folded_bytes,
            folded_lines,
        },
    )
}

/// Compares the folded stacks of a recording with what the other tool wrote, and the pictures of
/// both.
///
/// # Errors
///
/// Returns an error when the recording cannot be parsed, a tool failed, or folded stacks cannot
/// be read.
pub fn compare_with_inferno_collapse(
    bytes: &[u8],
    objects: &ObjectStore,
    collapse: CommandOutput,
    pyroclast_picture: CommandOutput,
    inferno_picture: CommandOutput,
) -> (report: Result<FoldComparisonReport, String>)
    requires
        objects.images.wf(),
    ensures
        compares_recording(
            report,
            bytes@,
            *objects,
            None,
            collapse,
            pyroclast_picture,
            inferno_picture,
        ),
{
    compare_with_inferno_collapse_with_symbols(
        bytes,
        objects,
        None,
        collapse,
        pyroclast_picture,
        inferno_picture,
    )
}

/// Whether a result is the comparison of the folded stacks of a recording, or what went wrong.
pub open spec fn compares_recording(
    report: Result<FoldComparisonReport, String>,
    bytes: Seq<u8>,
    objects: ObjectStore,
    symbols: Option<crate::symbols::SymbolsModel>,
    collapse: CommandOutput,
    pyroclast_picture: CommandOutput,
    inferno_picture: CommandOutput,
) -> bool {
    let options = FoldOptions { count_periods: true, inline: false };
    match streamed_of(bytes, options, objects@, symbols) {
        Err(error) => outcome(report) == Err::<ComparisonModel, Seq<char>>(error),
        Ok(counts) => exists|folded: Seq<char>| #[trigger]
            is_folded_text(folded, counts) && outcome(report) == tools_compared(
                folded,
                collapse,
                pyroclast_picture,
                inferno_picture,
            ),
    }
}

/// Compares the folded stacks of a recording, with the symbols of a table where there is one,
/// with what the other tool wrote, and the pictures of both.
///
/// # Errors
///
/// Returns an error when the recording cannot be parsed, a tool failed, or folded stacks cannot
/// be read.
pub fn compare_with_inferno_collapse_with_symbols(
    bytes: &[u8],
    objects: &ObjectStore,
    symbols: Option<&SymbolTable>,
    collapse: CommandOutput,
    pyroclast_picture: CommandOutput,
    inferno_picture: CommandOutput,
) -> (report: Result<FoldComparisonReport, String>)
    requires
        objects.images.wf(),
        symbols_wf(symbols),
    ensures
        compares_recording(
            report,
            bytes@,
            *objects,
            symbols_view(symbols),
            collapse,
            pyroclast_picture,
            inferno_picture,
        ),
{
    match fold_perfdata_rounds(bytes, benchmark_fold_options(), objects, symbols) {
        Ok(folded) => compare_folded(
            folded.as_str(),
            collapse,
            pyroclast_picture,
            inferno_picture,
        ),
        Err(error) => Err(error),
    }
}

// ---------------------------------------------------------------------------
// Laws
// ---------------------------------------------------------------------------

proof fn arguments_behind(
    front: Seq<Seq<char>>,
    args: Seq<Seq<char>>,
    at: int,
    parsed: BenchModel,
)
    requires
        0 <= at,
    ensures
        bench_from(front + args, front.len() + at, parsed) == bench_from(args, at, parsed),
    decreases args.len() + 1 - at,
{
    if at < args.len() {
        let whole = front + args;
        let from = front.len() + at;
        assert(whole[from] == args[at]);
        assert(arg_at(whole, from + 1) == arg_at(args, at + 1));
        arguments_behind(
            front,
            args,
            at + 2,
            BenchModel { perf_script: arg_at(args, at + 1), ..parsed },
        );
        arguments_behind(
            front,
            args,
            at + 2,
            BenchModel { export_perf_script: arg_at(args, at + 1), ..parsed },
        );
        arguments_behind(front, args, at + 1, BenchModel { symbols: true, ..parsed });
        arguments_behind(
            front,
            args,
            at + 1,
            BenchModel { perf_data: Some(args[at]), ..parsed },
        );
    }
}

/// Options are read one after the other: two take the argument behind them, whatever it is, one
/// stands alone, and every other argument names the recording.
pub proof fn arguments_are_read_one_by_one(
    value: Seq<char>,
    rest: Seq<Seq<char>>,
    parsed: BenchModel,
)
    ensures
        bench_from(seq!["--perf-script"@, value] + rest, 0, parsed) == bench_from(
            rest,
            0,
            BenchModel { perf_script: Some(value), ..parsed },
        ),
        bench_from(seq!["--export-perf-script"@, value] + rest, 0, parsed) == bench_from(
            rest,
            0,
            BenchModel { export_perf_script: Some(value), ..parsed },
        ),
        bench_from(seq!["--symbols"@] + rest, 0, parsed) == bench_from(
            rest,
            0,
            BenchModel { symbols: true, ..parsed },
        ),
        value != "--perf-script"@ && value != "--export-perf-script"@ && value != "--symbols"@
            ==> bench_from(seq![value] + rest, 0, parsed) == bench_from(
            rest,
            0,
            BenchModel { perf_data: Some(value), ..parsed },
        ),
        bench_from(Seq::empty(), 0, parsed) == parsed,
{
    reveal_strlit("--perf-script");
    reveal_strlit("--export-perf-script");
    reveal_strlit("--symbols");
    let script = seq!["--perf-script"@, value];
    arguments_behind(script, rest, 0, BenchModel { perf_script: Some(value), ..parsed });
    assert((script + rest)[0] == "--perf-script"@ && (script + rest)[1] == value);
    let export = seq!["--export-perf-script"@, value];
    arguments_behind(export, rest, 0, BenchModel { export_perf_script: Some(value), ..parsed });
    assert((export + rest)[0] == "--export-perf-script"@ && (export + rest)[1] == value);
    assert("--export-perf-script"@.len() != "--perf-script"@.len());
    let symbols = seq!["--symbols"@];
    arguments_behind(symbols, rest, 0, BenchModel { symbols: true, ..parsed });
    assert((symbols + rest)[0] == "--symbols"@);
    assert("--symbols"@.len() != "--perf-script"@.len());
    assert("--symbols"@.len() != "--export-perf-script"@.len());
    let named = seq![value];
    arguments_behind(named, rest, 0, BenchModel { perf_data: Some(value), ..parsed });
    assert((named + rest)[0] == value);
}

} // verus!
