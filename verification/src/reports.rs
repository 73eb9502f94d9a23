//! What commands print.

use vstd::prelude::*;
use vstd::string::StringExecFns;

use crate::artifacts::{path_in, ArtifactLayout};
use crate::flamegraph::analysis::{EntryModel, FlamegraphDelta, FlamegraphEntry};
use crate::perfdata::analysis::{
    PerfdataAnalysis, PerfdataEdgeCount, PerfdataIpCount, PerfdataThread,
};
use crate::perfdata::script::{padded, padding_stands_in_front, push_padded};
use crate::text::{decimal, push_decimal, views};

verus! {

/// A number in a column.
pub open spec fn column(n: nat, width: int) -> Seq<char> {
    padded(decimal(n), ' ', width)
}

fn push_column(out: &mut String, n: u64, width: usize)
    ensures
        final(out)@ == old(out)@ + column(n as nat, width as int),
{
    let mut digits = String::new();
    push_decimal(&mut digits, n as u128);
    assert(digits@ =~= decimal(n as nat));
    push_padded(out, digits.as_str(), ' ', width);
}

/// What is counted, in two columns.
pub open spec fn counted_columns(weighted_samples: u64, samples: usize) -> Seq<char> {
    column(weighted_samples as nat, 10) + " "@ + column(samples as nat, 10)
}

fn push_counted(out: &mut String, weighted_samples: u64, samples: usize)
    ensures
        final(out)@ == old(out)@ + counted_columns(weighted_samples, samples),
{
    let ghost start = out@;
    push_column(out, weighted_samples, 10);
    out.append(" ");
    push_column(out, samples as u64, 10);
    assert(out@ =~= start + counted_columns(weighted_samples, samples));
}

/// The line of a thread.
pub open spec fn thread_line(thread: PerfdataThread) -> Seq<char> {
    counted_columns(thread.weighted_samples, thread.samples) + " "@ + column(
        thread.tid as nat,
        7,
    ) + "  "@ + thread.comm@ + "\n"@
}

/// The line of an address.
pub open spec fn ip_line(ip: PerfdataIpCount) -> Seq<char> {
    counted_columns(ip.weighted_samples, ip.samples) + "  "@ + ip.ip@ + "\n"@
}

/// The line of a call.
pub open spec fn edge_line(edge: PerfdataEdgeCount) -> Seq<char> {
    counted_columns(edge.weighted_samples, edge.samples) + "  "@ + edge.caller@ + " -> "@
        + edge.callee@ + "\n"@
}

/// The lines of the first `count` threads.
pub open spec fn thread_lines(threads: Seq<PerfdataThread>, count: int) -> Seq<char>
    decreases count,
{
    if count <= 0 {
        Seq::empty()
    } else {
        thread_lines(threads, count - 1) + thread_line(threads[count - 1])
    }
}

/// The lines of the first `count` addresses.
pub open spec fn ip_lines(ips: Seq<PerfdataIpCount>, count: int) -> Seq<char>
    decreases count,
{
    if count <= 0 {
        Seq::empty()
    } else {
        ip_lines(ips, count - 1) + ip_line(ips[count - 1])
    }
}

/// The lines of the first `count` calls.
pub open spec fn edge_lines(edges: Seq<PerfdataEdgeCount>, count: int) -> Seq<char>
    decreases count,
{
    if count <= 0 {
        Seq::empty()
    } else {
        edge_lines(edges, count - 1) + edge_line(edges[count - 1])
    }
}

/// The totals of an analysis.
pub open spec fn totals_text(analysis: PerfdataAnalysis) -> Seq<char> {
    "records: "@ + decimal(analysis.total_records as nat) + "\nsamples: "@ + decimal(
        analysis.total_samples as nat,
    ) + "\nweighted samples: "@ + decimal(analysis.weighted_samples as nat) + "\nlost records: "@
        + decimal(analysis.lost_records as nat) + "\n"@
}

/// The text of an analysis.
pub open spec fn analysis_text(analysis: PerfdataAnalysis) -> Seq<char> {
    totals_text(analysis) + "\nthreads\n"@ + thread_lines(
        analysis.threads@,
        analysis.threads@.len() as int,
    ) + "\ntop leaf ips\n"@ + ip_lines(
        analysis.top_leaf_ips@,
        analysis.top_leaf_ips@.len() as int,
    ) + "\ntop edges\n"@ + edge_lines(analysis.top_edges@, analysis.top_edges@.len() as int)
}

fn push_threads(out: &mut String, threads: &Vec<PerfdataThread>)
    ensures
        final(out)@ == old(out)@ + thread_lines(threads@, threads@.len() as int),
{
    let ghost start = out@;
    let mut i: usize = 0;
    assert(start + Seq::<char>::empty() =~= start);
    while i < threads.len()
        invariant
            i <= threads@.len(),
            out@ == start + thread_lines(threads@, i as int),
        decreases threads@.len() - i,
    {
        push_counted(out, threads[i].weighted_samples, threads[i].samples);
        out.append(" ");
        push_column(out, threads[i].tid as u64, 7);
        out.append("  ");
        out.append(threads[i].comm.as_str());
        out.append("\n");
        i += 1;
        assert(out@ =~= start + thread_lines(threads@, i as int));
    }
}

fn push_ips(out: &mut String, ips: &Vec<PerfdataIpCount>)
    ensures
        final(out)@ == old(out)@ + ip_lines(ips@, ips@.len() as int),
{
    let ghost start = out@;
    let mut i: usize = 0;
    assert(start + Seq::<char>::empty() =~= start);
    while i < ips.len()
        invariant
            i <= ips@.len(),
            out@ == start + ip_lines(ips@, i as int),
        decreases ips@.len() - i,
    {
        push_counted(out, ips[i].weighted_samples, ips[i].samples);
        out.append("  ");
        out.append(ips[i].ip.as_str());
        out.append("\n");
        i += 1;
        assert(out@ =~= start + ip_lines(ips@, i as int));
    }
}

fn push_edges(out: &mut String, edges: &Vec<PerfdataEdgeCount>)
    ensures
        final(out)@ == old(out)@ + edge_lines(edges@, edges@.len() as int),
{
    let ghost start = out@;
    let mut i: usize = 0;
    assert(start + Seq::<char>::empty() =~= start);
    while i < edges.len()
        invariant
            i <= edges@.len(),
            out@ == start + edge_lines(edges@, i as int),
        decreases edges@.len() - i,
    {
        push_counted(out, edges[i].weighted_samples, edges[i].samples);
        out.append("  ");
        out.append(edges[i].caller.as_str());
        out.append(" -> ");
        out.append(edges[i].callee.as_str());
        out.append("\n");
        i += 1;
        assert(out@ =~= start + edge_lines(edges@, i as int));
    }
}

/// The text of an analysis.
#[must_use]
pub fn render_perfdata_analysis(analysis: &PerfdataAnalysis) -> (text: String)
    ensures
        text@ == analysis_text(*analysis),
{
    let mut text = "records: ".to_string();
    push_decimal(&mut text, analysis.total_records as u128);
    text.append("\nsamples: ");
    push_decimal(&mut text, analysis.total_samples as u128);
    text.append("\nweighted samples: ");
    push_decimal(&mut text, analysis.weighted_samples as u128);
    text.append("\nlost records: ");
    push_decimal(&mut text, analysis.lost_records as u128);
    text.append("\n");
    text.append("\nthreads\n");
    push_threads(&mut text, &analysis.threads);
    text.append("\ntop leaf ips\n");
    push_ips(&mut text, &analysis.top_leaf_ips);
    text.append("\ntop edges\n");
    push_edges(&mut text, &analysis.top_edges);
    text
}

// ---------------------------------------------------------------------------
// Flame graphs
// ---------------------------------------------------------------------------

/// The lines of the first `count` entries.
pub open spec fn entry_lines(
    entries: Seq<EntryModel>,
    percents: Seq<Seq<char>>,
    count: int,
) -> Seq<char>
    decreases count,
{
    if count <= 0 {
        Seq::empty()
    } else {
        entry_lines(entries, percents, count - 1) + padded(percents[count - 1], ' ', 6) + "% "@
            + column(entries[count - 1].samples as nat, 10) + "  "@ + entries[count - 1].name
            + "\n"@
    }
}

/// The lines of entries, with their shares as they are printed.
#[must_use]
pub fn render_flamegraph_entries(entries: &[FlamegraphEntry], percents: &[String]) -> (text: String)
    requires
        entries@.len() == percents@.len(),
    ensures
        text@ == entry_lines(views(entries@), views(percents@), entries@.len() as int),
{
    let mut text = String::new();
    let ghost all = views(entries@);
    let ghost shown = views(percents@);
    let mut i: usize = 0;
    while i < entries.len()
        invariant
            i <= entries@.len(),
            entries@.len() == percents@.len(),
            all == views(entries@),
            shown == views(percents@),
            text@ == entry_lines(all, shown, i as int),
        decreases entries@.len() - i,
    {
        assert(all[i as int] == entries@[i as int]@);
        assert(shown[i as int] == percents@[i as int]@);
        push_padded(&mut text, percents[i].as_str(), ' ', 6);
        text.append("% ");
        push_column(&mut text, entries[i].samples, 10);
        text.append("  ");
        text.append(entries[i].name.as_str());
        text.append("\n");
        i += 1;
    }
    text
}

/// The lines of the first `count` categories.
pub open spec fn category_lines(
    names: Seq<Seq<char>>,
    percents: Seq<Seq<char>>,
    count: int,
) -> Seq<char>
    decreases count,
{
    if count <= 0 {
        Seq::empty()
    } else {
        category_lines(names, percents, count - 1) + padded(percents[count - 1], ' ', 6) + "%  "@
            + names[count - 1] + "\n"@
    }
}

/// The lines of categories, with their shares as they are printed.
#[must_use]
pub fn render_flamegraph_categories(names: &[String], percents: &[String]) -> (text: String)
    requires
        names@.len() == percents@.len(),
    ensures
        text@ == category_lines(views(names@), views(percents@), names@.len() as int),
{
    let mut text = String::new();
    let ghost all = views(names@);
    let ghost shown = views(percents@);
    let mut i: usize = 0;
    while i < names.len()
        invariant
            i <= names@.len(),
            names@.len() == percents@.len(),
            all == views(names@),
            shown == views(percents@),
            text@ == category_lines(all, shown, i as int),
        decreases names@.len() - i,
    {
        assert(all[i as int] == names@[i as int]@);
        assert(shown[i as int] == percents@[i as int]@);
        push_padded(&mut text, percents[i].as_str(), ' ', 6);
        text.append("%  ");
        text.append(names[i].as_str());
        text.append("\n");
        i += 1;
    }
    text
}

/// The shares of an entry in two flame graphs and their difference, as they are printed.
#[derive(Clone, Debug, Eq, PartialEq)]
pub struct DeltaText {
    pub before_percent: String,
    pub after_percent: String,
    pub delta_percent: String,
}

/// The line of a difference.
pub open spec fn delta_line(delta: FlamegraphDelta, shown: DeltaText) -> Seq<char> {
    padded(shown.before_percent@, ' ', 7) + "% "@ + padded(shown.after_percent@, ' ', 7) + "% "@
        + padded(shown.delta_percent@, ' ', 7) + "% "@ + column(delta.before_samples as nat, 10)
        + " "@ + column(delta.after_samples as nat, 10) + "  "@ + delta.name@ + "\n"@
}

/// The lines of the first `count` differences.
pub open spec fn delta_lines(
    deltas: Seq<FlamegraphDelta>,
    shown: Seq<DeltaText>,
    count: int,
) -> Seq<char>
    decreases count,
{
    if count <= 0 {
        Seq::empty()
    } else {
        delta_lines(deltas, shown, count - 1) + delta_line(deltas[count - 1], shown[count - 1])
    }
}

fn push_delta(text: &mut String, delta: &FlamegraphDelta, shown: &DeltaText)
    ensures
        final(text)@ == old(text)@ + delta_line(*delta, *shown),
{
    let ghost before = text@;
    push_padded(text, shown.before_percent.as_str(), ' ', 7);
    text.append("% ");
    push_padded(text, shown.after_percent.as_str(), ' ', 7);
    text.append("% ");
    push_padded(text, shown.delta_percent.as_str(), ' ', 7);
    text.append("% ");
    push_column(text, delta.before_samples, 10);
    text.append(" ");
    push_column(text, delta.after_samples, 10);
    text.append("  ");
    text.append(delta.name.as_str());
    text.append("\n");
    assert(text@ =~= before + delta_line(*delta, *shown));
}

/// The lines of differences.
#[must_use]
pub fn render_flamegraph_deltas(deltas: &[FlamegraphDelta], shown: &[DeltaText]) -> (text: String)
    requires
        deltas@.len() == shown@.len(),
    ensures
        text@ == delta_lines(deltas@, shown@, deltas@.len() as int),
{
    let mut text = String::new();
    let mut i: usize = 0;
    while i < deltas.len()
        invariant
            i <= deltas@.len(),
            deltas@.len() == shown@.len(),
            text@ == delta_lines(deltas@, shown@, i as int),
        decreases deltas@.len() - i,
    {
        push_delta(&mut text, &deltas[i], &shown[i]);
        i += 1;
    }
    text
}

// ---------------------------------------------------------------------------
// Summaries of runs
// ---------------------------------------------------------------------------

/// What is done next for the summary of a run: a file is read, a recording is folded, folded
/// stacks are summarized, or a summary is shown.
#[derive(Clone, Debug, Eq, PartialEq)]
pub enum SummaryStep {
    Read(String),
    Fold(String),
    Summarize(String),
    Show(String),
}

/// The contents of a [`SummaryStep`].
#[verifier::ext_equal]
pub enum SummaryStepModel {
    Read(Seq<char>),
    Fold(Seq<char>),
    Summarize(Seq<char>),
    Show(Seq<char>),
}

impl View for SummaryStep {
    type V = SummaryStepModel;

    open spec fn view(&self) -> SummaryStepModel {
        match *self {
            SummaryStep::Read(path) => SummaryStepModel::Read(path@),
            SummaryStep::Fold(path) => SummaryStepModel::Fold(path@),
            SummaryStep::Summarize(folded) => SummaryStepModel::Summarize(folded@),
            SummaryStep::Show(summary) => SummaryStepModel::Show(summary@),
        }
    }
}

/// Shows the summary that a run left; without one, reads its folded stacks.
#[must_use]
pub fn after_summary(artifact_dir: &str, summary: Option<String>) -> (step: SummaryStep)
    ensures
        step@ == match summary {
            Some(summary) => SummaryStepModel::Show(summary@),
            None => SummaryStepModel::Read(path_in(artifact_dir@, "stacks.folded"@)),
        },
{
    match summary {
        Some(summary) => SummaryStep::Show(summary),
        None => SummaryStep::Read(ArtifactLayout::new(artifact_dir).stacks_folded()),
    }
}

/// Summarizes the folded stacks that a run left; without any, folds its recording.
#[must_use]
pub fn after_stacks(artifact_dir: &str, folded: Option<String>) -> (step: SummaryStep)
    ensures
        step@ == match folded {
            Some(folded) => SummaryStepModel::Summarize(folded@),
            None => SummaryStepModel::Fold(path_in(artifact_dir@, "profile.raw."@ + "perf.data"@)),
        },
{
    match folded {
        Some(folded) => SummaryStep::Summarize(folded),
        None => SummaryStep::Fold(ArtifactLayout::new(artifact_dir).raw_profile("perf.data")),
    }
}

/// The file that holds the summary of a run.
#[must_use]
pub fn summary_path(artifact_dir: &str, json: bool) -> (path: String)
    ensures
        path@ == path_in(
            artifact_dir@,
            if json {
                "summary.json"@
            } else {
                "summary.txt"@
            },
        ),
{
    let layout = ArtifactLayout::new(artifact_dir);
    if json {
        layout.summary_json()
    } else {
        layout.summary_txt()
    }
}

// ---------------------------------------------------------------------------
// Laws
// ---------------------------------------------------------------------------

/// Each thread has a line, in their order.
pub proof fn threads_are_shown_line_by_line(threads: Seq<PerfdataThread>)
    ensures
        thread_lines(threads, threads.len() as int) == threads.map_values(
            |it: PerfdataThread| thread_line(it),
        ).flatten(),
{
    thread_lines_up_to(threads, threads.len() as int);
    assert(threads.take(threads.len() as int) =~= threads);
}

proof fn thread_lines_up_to(threads: Seq<PerfdataThread>, count: int)
    requires
        0 <= count <= threads.len(),
    ensures
        thread_lines(threads, count) == threads.take(count).map_values(
            |it: PerfdataThread| thread_line(it),
        ).flatten(),
    decreases count,
{
    let show = |it: PerfdataThread| thread_line(it);
    let shown = threads.take(count).map_values(show);
    if count > 0 {
        thread_lines_up_to(threads, count - 1);
        let before = threads.take(count - 1).map_values(show);
        assert(shown =~= before.push(show(threads[count - 1])));
        before.lemma_flatten_push(show(threads[count - 1]));
    } else {
        assert(shown =~= Seq::empty());
    }
}

/// Each address has a line, in their order.
pub proof fn addresses_are_shown_line_by_line(ips: Seq<PerfdataIpCount>)
    ensures
        ip_lines(ips, ips.len() as int) == ips.map_values(
            |it: PerfdataIpCount| ip_line(it),
        ).flatten(),
{
    ip_lines_up_to(ips, ips.len() as int);
    assert(ips.take(ips.len() as int) =~= ips);
}

proof fn ip_lines_up_to(ips: Seq<PerfdataIpCount>, count: int)
    requires
        0 <= count <= ips.len(),
    ensures
        ip_lines(ips, count) == ips.take(count).map_values(
            |it: PerfdataIpCount| ip_line(it),
        ).flatten(),
    decreases count,
{
    let show = |it: PerfdataIpCount| ip_line(it);
    let shown = ips.take(count).map_values(show);
    if count > 0 {
        ip_lines_up_to(ips, count - 1);
        let before = ips.take(count - 1).map_values(show);
        assert(shown =~= before.push(show(ips[count - 1])));
        before.lemma_flatten_push(show(ips[count - 1]));
    } else {
        assert(shown =~= Seq::empty());
    }
}

/// Each call has a line, in their order.
pub proof fn calls_are_shown_line_by_line(edges: Seq<PerfdataEdgeCount>)
    ensures
        edge_lines(edges, edges.len() as int) == edges.map_values(
            |it: PerfdataEdgeCount| edge_line(it),
        ).flatten(),
{
    edge_lines_up_to(edges, edges.len() as int);
    assert(edges.take(edges.len() as int) =~= edges);
}

proof fn edge_lines_up_to(edges: Seq<PerfdataEdgeCount>, count: int)
    requires
        0 <= count <= edges.len(),
    ensures
        edge_lines(edges, count) == edges.take(count).map_values(
            |it: PerfdataEdgeCount| edge_line(it),
        ).flatten(),
    decreases count,
{
    let show = |it: PerfdataEdgeCount| edge_line(it);
    let shown = edges.take(count).map_values(show);
    if count > 0 {
        edge_lines_up_to(edges, count - 1);
        let before = edges.take(count - 1).map_values(show);
        assert(shown =~= before.push(show(edges[count - 1])));
        before.lemma_flatten_push(show(edges[count - 1]));
    } else {
        assert(shown =~= Seq::empty());
    }
}

/// The blanks in front of a number of some digits in a column of some width.
pub open spec fn blanks(digits: nat, width: nat) -> Seq<char> {
    Seq::new(
        if digits < width {
            (width - digits) as nat
        } else {
            0
        },
        |i: int| ' ',
    )
}

proof fn columns_are_blanks_and_digits(n: nat, width: nat)
    ensures
        column(n, width as int) == blanks(decimal(n).len(), width) + decimal(n),
{
    padding_stands_in_front(decimal(n), ' ', width as int);
    let shown = column(n, width as int);
    let front = shown.len() - decimal(n).len();
    assert(shown =~= shown.take(front) + shown.skip(front));
    assert(shown.take(front) =~= blanks(decimal(n).len(), width));
}

/// The line of a thread holds its weight, its samples, its number and its name; that of an address
/// its weight, its samples and the address; that of a call its weight, its samples, the caller and
/// the callee. Numbers end where their columns end.
pub proof fn lines_show_what_is_counted(
    thread: PerfdataThread,
    ip: PerfdataIpCount,
    edge: PerfdataEdgeCount,
)
    ensures
        ({
            let weight = decimal(thread.weighted_samples as nat);
            let samples = decimal(thread.samples as nat);
            let tid = decimal(thread.tid as nat);
            thread_line(thread) == blanks(weight.len(), 10) + weight + " "@ + blanks(
                samples.len(),
                10,
            ) + samples + " "@ + blanks(tid.len(), 7) + tid + "  "@ + thread.comm@ + "\n"@
        }),
        ({
            let weight = decimal(ip.weighted_samples as nat);
            let samples = decimal(ip.samples as nat);
            ip_line(ip) == blanks(weight.len(), 10) + weight + " "@ + blanks(samples.len(), 10)
                + samples + "  "@ + ip.ip@ + "\n"@
        }),
        ({
            let weight = decimal(edge.weighted_samples as nat);
            let samples = decimal(edge.samples as nat);
            edge_line(edge) == blanks(weight.len(), 10) + weight + " "@ + blanks(samples.len(), 10)
                + samples + "  "@ + edge.caller@ + " -> "@ + edge.callee@ + "\n"@
        }),
{
    columns_are_blanks_and_digits(thread.weighted_samples as nat, 10);
    columns_are_blanks_and_digits(thread.samples as nat, 10);
    columns_are_blanks_and_digits(thread.tid as nat, 7);
    columns_are_blanks_and_digits(ip.weighted_samples as nat, 10);
    columns_are_blanks_and_digits(ip.samples as nat, 10);
    columns_are_blanks_and_digits(edge.weighted_samples as nat, 10);
    columns_are_blanks_and_digits(edge.samples as nat, 10);
    assert({
        let weight = decimal(thread.weighted_samples as nat);
        let samples = decimal(thread.samples as nat);
        let tid = decimal(thread.tid as nat);
        thread_line(thread) =~= blanks(weight.len(), 10) + weight + " "@ + blanks(samples.len(), 10)
            + samples + " "@ + blanks(tid.len(), 7) + tid + "  "@ + thread.comm@ + "\n"@
    });
    assert({
        let weight = decimal(ip.weighted_samples as nat);
        let samples = decimal(ip.samples as nat);
        ip_line(ip) =~= blanks(weight.len(), 10) + weight + " "@ + blanks(samples.len(), 10)
            + samples + "  "@ + ip.ip@ + "\n"@
    });
    assert({
        let weight = decimal(edge.weighted_samples as nat);
        let samples = decimal(edge.samples as nat);
        edge_line(edge) =~= blanks(weight.len(), 10) + weight + " "@ + blanks(samples.len(), 10)
            + samples + "  "@ + edge.caller@ + " -> "@ + edge.callee@ + "\n"@
    });
}

} // verus!
