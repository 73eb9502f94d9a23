//! What can be asked for on the command line.

use vstd::prelude::*;

use crate::text::{text_view, views};

verus! {

/// What is profiled.
#[derive(Clone, Copy, Debug, Eq, PartialEq, Structural)]
pub enum ProfileKind {
    Cpu,
    Memory,
    Offcpu,
    Latency,
    Async,
}

/// How stacks are recorded.
#[derive(Clone, Copy, Debug, Eq, PartialEq, Structural)]
pub enum PerfCallGraph {
    Fp,
    Dwarf,
}

/// What triggers samples.
#[derive(Clone, Copy, Debug, Eq, PartialEq, Structural)]
pub enum PerfEvent {
    Default,
    CpuClock,
    TaskClock,
    Cycles,
}

/// How symbols are found.
#[derive(Clone, Copy, Debug, Eq, PartialEq, Structural)]
pub enum SymbolizerKind {
    RustAddr2line,
    Addr2line,
}

/// How off-CPU time is measured.
#[derive(Clone, Copy, Debug, Eq, PartialEq, Structural)]
pub enum OffcpuMethod {
    PerfSched,
    PerfCpuClock,
    Bpftrace,
}

impl PerfEvent {
    /// The name of the event.
    pub open spec fn name(self) -> Seq<char> {
        match self {
            PerfEvent::Default => "default"@,
            PerfEvent::CpuClock => "cpu-clock"@,
            PerfEvent::TaskClock => "task-clock"@,
            PerfEvent::Cycles => "cycles"@,
        }
    }

    /// The name of the event.
    #[must_use]
    pub fn text(self) -> (text: &'static str)
        ensures
            text@ == self.name(),
    {
        match self {
            PerfEvent::Default => "default",
            PerfEvent::CpuClock => "cpu-clock",
            PerfEvent::TaskClock => "task-clock",
            PerfEvent::Cycles => "cycles",
        }
    }
}

impl PerfCallGraph {
    /// The option of `perf record`.
    pub open spec fn name(self) -> Seq<char> {
        match self {
            PerfCallGraph::Fp => "fp"@,
            PerfCallGraph::Dwarf => "dwarf,64000"@,
        }
    }

    /// The option of `perf record`.
    #[must_use]
    pub fn text(self) -> (text: &'static str)
        ensures
            text@ == self.name(),
    {
        match self {
            PerfCallGraph::Fp => "fp",
            PerfCallGraph::Dwarf => "dwarf,64000",
        }
    }
}

impl OffcpuMethod {
    /// The name of the method in summaries.
    pub open spec fn name(self) -> Seq<char> {
        match self {
            OffcpuMethod::PerfSched => "perf_sched"@,
            OffcpuMethod::PerfCpuClock => "perf_cpu_clock"@,
            OffcpuMethod::Bpftrace => "bpftrace"@,
        }
    }

    /// The name of the method in summaries.
    #[must_use]
    pub fn summary_label(self) -> (label: &'static str)
        ensures
            label@ == self.name(),
    {
        match self {
            OffcpuMethod::PerfSched => "perf_sched",
            OffcpuMethod::PerfCpuClock => "perf_cpu_clock",
            OffcpuMethod::Bpftrace => "bpftrace",
        }
    }
}

/// How a profile is taken.
#[derive(Clone, Debug, Eq, PartialEq)]
pub struct RunArgs {
    pub out: Option<String>,
    pub name: Option<String>,
    pub json: bool,
    pub symbols: bool,
    pub symbolizer: SymbolizerKind,
    pub frequency: u32,
    pub event: PerfEvent,
    pub call_graph: PerfCallGraph,
    pub pid: Option<u32>,
    pub tids: Vec<u32>,
    pub threads_of_pid: Option<u32>,
    pub duration_secs: u32,
    pub command: Vec<String>,
}

/// How a profile of a named kind is taken.
#[derive(Clone, Debug, Eq, PartialEq)]
pub struct ProfileArgs {
    pub kind: ProfileKind,
    pub run: RunArgs,
}

/// A profile to take.
#[derive(Clone, Debug, Eq, PartialEq)]
pub struct ProfileInvocation {
    pub kind: ProfileKind,
    pub out: Option<String>,
    pub name: Option<String>,
    pub json: bool,
    pub symbols: bool,
    pub symbolizer: SymbolizerKind,
    pub frequency: u32,
    pub event: PerfEvent,
    pub call_graph: PerfCallGraph,
    pub pid: Option<u32>,
    pub tids: Vec<u32>,
    pub threads_of_pid: Option<u32>,
    pub duration_secs: u32,
    pub command: Vec<String>,
}

/// The contents of a [`ProfileInvocation`].
#[verifier::ext_equal]
pub struct InvocationModel {
    pub kind: ProfileKind,
    pub out: Option<Seq<char>>,
    pub name: Option<Seq<char>>,
    pub json: bool,
    pub symbols: bool,
    pub symbolizer: SymbolizerKind,
    pub frequency: u32,
    pub event: PerfEvent,
    pub call_graph: PerfCallGraph,
    pub pid: Option<u32>,
    pub tids: Seq<u32>,
    pub threads_of_pid: Option<u32>,
    pub duration_secs: u32,
    pub command: Seq<Seq<char>>,
}

impl View for ProfileInvocation {
    type V = InvocationModel;

    open spec fn view(&self) -> InvocationModel {
        InvocationModel {
            kind: self.kind,
            out: text_view(self.out),
            name: text_view(self.name),
            json: self.json,
            symbols: self.symbols,
            symbolizer: self.symbolizer,
            frequency: self.frequency,
            event: self.event,
            call_graph: self.call_graph,
            pid: self.pid,
            tids: self.tids@,
            threads_of_pid: self.threads_of_pid,
            duration_secs: self.duration_secs,
            command: views(self.command@),
        }
    }
}

/// The profile of a kind that arguments ask for.
pub open spec fn invocation_of(kind: ProfileKind, args: RunArgs) -> InvocationModel {
    InvocationModel {
        kind,
        out: text_view(args.out),
        name: text_view(args.name),
        json: args.json,
        symbols: args.symbols,
        symbolizer: args.symbolizer,
        frequency: args.frequency,
        event: args.event,
        call_graph: args.call_graph,
        pid: args.pid,
        tids: args.tids@,
        threads_of_pid: args.threads_of_pid,
        duration_secs: args.duration_secs,
        command: views(args.command@),
    }
}

/// A copy of an optional text.
pub fn copy_text(text: &Option<String>) -> (copy: Option<String>)
    ensures
        text_view(copy) == text_view(*text),
{
    match text {
        Some(text) => Some(text.clone()),
        None => None,
    }
}

/// A copy of texts.
pub fn copy_texts(texts: &Vec<String>) -> (copy: Vec<String>)
    ensures
        views(copy@) == views(texts@),
{
    let mut copy: Vec<String> = Vec::with_capacity(texts.len());
    let mut i: usize = 0;
    while i < texts.len()
        invariant
            i <= texts@.len(),
            copy@.len() == i,
            forall|j: int| 0 <= j < i ==> (#[trigger] copy@[j])@ == texts@[j]@,
        decreases texts@.len() - i,
    {
        copy.push(texts[i].clone());
        i += 1;
    }
    assert(views(copy@) =~= views(texts@));
    copy
}

/// A copy of numbers.
pub fn copy_numbers(numbers: &Vec<u32>) -> (copy: Vec<u32>)
    ensures
        copy@ == numbers@,
{
    vstd::slice::slice_to_vec(numbers.as_slice())
}

impl ProfileInvocation {
    /// The profile of a kind that arguments ask for.
    #[must_use]
    pub fn from_run(kind: ProfileKind, args: &RunArgs) -> (invocation: ProfileInvocation)
        ensures
            invocation@ == invocation_of(kind, *args),
    {
        ProfileInvocation {
            kind,
            out: copy_text(&args.out),
            name: copy_text(&args.name),
            json: args.json,
            symbols: args.symbols,
            symbolizer: args.symbolizer,
            frequency: args.frequency,
            event: args.event,
            call_graph: args.call_graph,
            pid: args.pid,
            tids: copy_numbers(&args.tids),
            threads_of_pid: args.threads_of_pid,
            duration_secs: args.duration_secs,
            command: copy_texts(&args.command),
        }
    }
}

/// A command: a profile by its kind, a profile of a named kind, or work on files.
#[derive(Clone, Debug, Eq, PartialEq)]
pub enum CliCommand {
    Memory(RunArgs),
    Cpu(RunArgs),
    Offcpu(RunArgs),
    Latency(RunArgs),
    Async(RunArgs),
    Profile(ProfileArgs),
    Plumbing,
}

impl CliCommand {
    /// The profile that a command asks for.
    pub open spec fn asks_for(self) -> Option<InvocationModel> {
        match self {
            CliCommand::Memory(args) => Some(invocation_of(ProfileKind::Memory, args)),
            CliCommand::Cpu(args) => Some(invocation_of(ProfileKind::Cpu, args)),
            CliCommand::Offcpu(args) => Some(invocation_of(ProfileKind::Offcpu, args)),
            CliCommand::Latency(args) => Some(invocation_of(ProfileKind::Latency, args)),
            CliCommand::Async(args) => Some(invocation_of(ProfileKind::Async, args)),
            CliCommand::Profile(args) => Some(invocation_of(args.kind, args.run)),
            CliCommand::Plumbing => None,
        }
    }

    /// The profile that a command asks for.
    #[must_use]
    pub fn profile_invocation(&self) -> (invocation: Option<ProfileInvocation>)
        ensures
            match invocation {
                Some(invocation) => self.asks_for() == Some(invocation@),
                None => self.asks_for() is None,
            },
    {
        match self {
            CliCommand::Memory(args) => Some(
                ProfileInvocation::from_run(ProfileKind::Memory, args),
            ),
            CliCommand::Cpu(args) => Some(ProfileInvocation::from_run(ProfileKind::Cpu, args)),
            CliCommand::Offcpu(args) => Some(
                ProfileInvocation::from_run(ProfileKind::Offcpu, args),
            ),
            CliCommand::Latency(args) => Some(
                ProfileInvocation::from_run(ProfileKind::Latency, args),
            ),
            CliCommand::Async(args) => Some(ProfileInvocation::from_run(ProfileKind::Async, args)),
            CliCommand::Profile(args) => Some(ProfileInvocation::from_run(args.kind, &args.run)),
            CliCommand::Plumbing => None,
        }
    }
}

/// Folding of a recording.
#[derive(Clone, Debug, Eq, PartialEq)]
pub struct FoldArgs {
    pub count_periods: bool,
    pub symbols: bool,
    pub symbolizer: SymbolizerKind,
    pub input: String,
}

/// The summary of a run.
#[derive(Clone, Debug, Eq, PartialEq)]
pub struct SummarizeArgs {
    pub json: bool,
    pub artifact_dir: String,
}

/// A flame graph of a recording.
#[derive(Clone, Debug, Eq, PartialEq)]
pub struct FlamegraphArgs {
    pub input: String,
    pub output: Option<String>,
    pub symbols: bool,
    pub symbolizer: SymbolizerKind,
    pub title: String,
}

impl FlamegraphArgs {
    /// Where the picture goes.
    #[must_use]
    pub fn output_path(&self) -> (path: String)
        ensures
            path@ == match text_view(self.output) {
                Some(output) => output,
                None => "flamegraph.svg"@,
            },
    {
        match &self.output {
            Some(output) => output.clone(),
            None => "flamegraph.svg".to_string(),
        }
    }
}

/// What is looked for in a flame graph.
#[derive(Clone, Copy, Debug, Eq, PartialEq, Structural)]
pub enum FlamegraphAnalysisMode {
    Top,
    Search,
    Syscalls,
    Summary,
    Diff,
}

/// The analysis of a recording.
#[derive(Clone, Debug, Eq, PartialEq)]
pub struct AnalyzePerfdataArgs {
    pub json: bool,
    pub limit: usize,
    pub input: String,
}

/// The summary of a recording.
#[derive(Clone, Debug, Eq, PartialEq)]
pub struct ParsePerfSummaryArgs {
    pub json: bool,
    pub limit: usize,
    pub input: String,
}

/// What is asked of a recording.
#[derive(Clone, Debug, Eq, PartialEq)]
pub enum ParsePerfCommand {
    Summary(ParsePerfSummaryArgs),
}

impl ParsePerfSummaryArgs {
    /// The analysis that makes the summary.
    #[must_use]
    pub fn analyze_args(&self) -> (args: AnalyzePerfdataArgs)
        ensures
            args.json == self.json,
            args.limit == self.limit,
            args.input@ == self.input@,
    {
        AnalyzePerfdataArgs { json: self.json, limit: self.limit, input: self.input.clone() }
    }
}

/// A search in a flame graph.
#[derive(Clone, Debug, Eq, PartialEq)]
pub struct ParseFlamegraphSearchArgs {
    pub json: bool,
    pub input: String,
    pub pattern: String,
}

/// The system calls in a flame graph.
#[derive(Clone, Debug, Eq, PartialEq)]
pub struct ParseFlamegraphSyscallsArgs {
    pub json: bool,
    pub input: String,
}

/// The categories of a flame graph.
#[derive(Clone, Debug, Eq, PartialEq)]
pub struct ParseFlamegraphSummaryArgs {
    pub json: bool,
    pub input: String,
}

} // verus!
