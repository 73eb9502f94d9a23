//! Profiles of processor time with `perf`.

use vstd::prelude::*;
use vstd::string::StringExecFns;

use crate::artifacts::{path_in, standard_artifacts, ArtifactLayout};
use crate::backends::{
    add_file, add_path, bytes_file, bytes_in, command_line, command_line_of, error_file,
    fail_with_output, failure_files, no_files, one_text, one_tool, summary_of_step, text_file, text_in,
    FileModel, OutcomeModel, ProfileRequest, ProfileStep, ProfileSummary, RunOutcome, StepModel,
};
use crate::cli::{copy_numbers, copy_texts, PerfEvent, SymbolizerKind};
use crate::flamegraph::{FlamegraphRequest, InfernoFlamegraphRenderer};
use crate::manifest::BackendName;
use crate::perfdata::accumulate::FoldOptions;
use crate::process::{exit_error, exit_error_text, CommandModel, CommandOutput, CommandSpec};
use crate::summary::threads::{
    count_sum, folded_stacks_of, render_folded_stack_summary_text, summarize_folded_stacks,
    summarizes,
};
use crate::text::{
    decimal, is_free_of, join_texts, joined_with, lines_from, pieces_from, pieces_of_texts_join,
    push_decimal, views,
};
use crate::tools::{ToolModel, ToolSource, ToolSpec};

verus! {

/// What is recorded.
#[derive(Clone, Debug, Eq, PartialEq)]
pub enum PerfRecordTarget {
    Command(Vec<String>),
    Process(u32),
    Threads(Vec<u32>),
}

/// What is recorded.
#[verifier::ext_equal]
pub enum TargetModel {
    Command(Seq<Seq<char>>),
    Process(u32),
    Threads(Seq<u32>),
}

impl View for PerfRecordTarget {
    type V = TargetModel;

    open spec fn view(&self) -> TargetModel {
        match *self {
            PerfRecordTarget::Command(command) => TargetModel::Command(views(command@)),
            PerfRecordTarget::Process(pid) => TargetModel::Process(pid),
            PerfRecordTarget::Threads(tids) => TargetModel::Threads(tids@),
        }
    }
}

/// Numbers as texts.
pub open spec fn number_texts(numbers: Seq<u32>) -> Seq<Seq<char>> {
    numbers.map_values(|number: u32| decimal(number as nat))
}

/// Numbers with commas between them.
pub open spec fn comma_list(numbers: Seq<u32>) -> Seq<char> {
    joined_with(number_texts(numbers), ","@, numbers.len() as int)
}

fn number_text(number: u32) -> (text: String)
    ensures
        text@ == decimal(number as nat),
{
    let mut text = String::new();
    push_decimal(&mut text, number as u128);
    assert(text@ =~= decimal(number as nat));
    text
}

fn join_numbers(numbers: &Vec<u32>) -> (text: String)
    ensures
        text@ == comma_list(numbers@),
{
    let mut texts: Vec<String> = Vec::with_capacity(numbers.len());
    let mut i: usize = 0;
    while i < numbers.len()
        invariant
            i <= numbers@.len(),
            texts@.len() == i,
            forall|j: int| 0 <= j < i ==> (#[trigger] texts@[j])@ == decimal(numbers@[j] as nat),
        decreases numbers@.len() - i,
    {
        texts.push(number_text(numbers[i]));
        i += 1;
    }
    assert(views(texts@) =~= number_texts(numbers@));
    join_texts(&texts, ",")
}

/// The command that records a target. A process or threads are recorded while another command
/// sleeps.
pub open spec fn record_command(
    event: PerfEvent,
    frequency: u32,
    callgraph: Seq<char>,
    output: Seq<char>,
    target: TargetModel,
    duration_secs: u32,
) -> CommandModel {
    let base = CommandModel::of("perf"@).with("record"@).with("-e"@).with(event.name()).with(
        "-F"@,
    ).with(decimal(frequency as nat)).with("-g"@).with("--call-graph"@).with(callgraph);
    let attached = match target {
        TargetModel::Command(_) => base,
        TargetModel::Process(pid) => base.with("-p"@).with(decimal(pid as nat)),
        TargetModel::Threads(tids) => base.with("-t"@).with(comma_list(tids)),
    };
    let written = attached.with("-o"@).with(output).with("--"@);
    match target {
        TargetModel::Command(command) => written.with_all(command),
        _ => written.with("sleep"@).with(decimal(duration_secs as nat)),
    }
}

/// The command that records a target.
#[must_use]
pub fn build_perf_record_command(
    event: PerfEvent,
    frequency: u32,
    callgraph: &str,
    output: &str,
    target: &PerfRecordTarget,
    duration_secs: u32,
) -> (command: CommandSpec)
    ensures
        command@ == record_command(
            event,
            frequency,
            callgraph@,
            output@,
            target@,
            duration_secs,
        ),
{
    let base = CommandSpec::new("perf").arg("record").arg("-e").arg(event.text()).arg("-F").arg(
        number_text(frequency).as_str(),
    ).arg("-g").arg("--call-graph").arg(callgraph);
    let attached = match target {
        PerfRecordTarget::Command(_) => base,
        PerfRecordTarget::Process(pid) => base.arg("-p").arg(number_text(*pid).as_str()),
        PerfRecordTarget::Threads(tids) => base.arg("-t").arg(join_numbers(tids).as_str()),
    };
    let written = attached.arg("-o").arg(output).arg("--");
    match target {
        PerfRecordTarget::Command(command) => written.args(command),
        _ => written.arg("sleep").arg(number_text(duration_secs).as_str()),
    }
}

/// The process whose threads have to be listed for a request.
#[must_use]
pub fn threads_to_list(request: &ProfileRequest) -> (pid: Option<u32>)
    ensures
        pid == if request.pid is None {
            request.threads_of_pid
        } else {
            None
        },
{
    match request.pid {
        Some(_) => None,
        None => request.threads_of_pid,
    }
}

/// What a request records, when the threads of its process were listed.
pub open spec fn target_of(request: ProfileRequest, listed: Seq<u32>) -> TargetModel {
    match (request.pid, request.threads_of_pid) {
        (Some(pid), _) => TargetModel::Process(pid),
        (None, Some(_)) => TargetModel::Threads(listed),
        _ => if request.tids@.len() == 0 {
            TargetModel::Command(views(request.command@))
        } else {
            TargetModel::Threads(request.tids@)
        },
    }
}

/// What a request records, when the threads of its process were listed.
#[must_use]
pub fn perf_record_target(request: &ProfileRequest, listed: &Vec<u32>) -> (target:
    PerfRecordTarget)
    ensures
        target@ == target_of(*request, listed@),
{
    match (request.pid, request.threads_of_pid) {
        (Some(pid), _) => PerfRecordTarget::Process(pid),
        (None, Some(_)) => PerfRecordTarget::Threads(copy_numbers(listed)),
        _ => if request.tids.len() == 0 {
            PerfRecordTarget::Command(copy_texts(&request.command))
        } else {
            PerfRecordTarget::Threads(copy_numbers(&request.tids))
        },
    }
}

/// The word for what a request records.
pub open spec fn target_label(request: ProfileRequest) -> Seq<char> {
    if request.pid is Some {
        "process"@
    } else if request.threads_of_pid is Some {
        "threads_of_pid"@
    } else if request.tids@.len() == 0 {
        "command"@
    } else {
        "threads"@
    }
}

fn record_target_label(request: &ProfileRequest) -> (label: &'static str)
    ensures
        label@ == target_label(*request),
{
    if request.pid.is_some() {
        "process"
    } else if request.threads_of_pid.is_some() {
        "threads_of_pid"
    } else if request.tids.len() == 0 {
        "command"
    } else {
        "threads"
    }
}

/// Whether a request attaches to what runs already.
pub open spec fn attaches(request: ProfileRequest) -> bool {
    request.pid is Some || request.threads_of_pid is Some || request.tids@.len() > 0
}

/// Tells whether a request attaches to what runs already.
#[must_use]
pub fn is_attached(request: &ProfileRequest) -> (attached: bool)
    ensures
        attached == attaches(*request),
{
    request.pid.is_some() || request.threads_of_pid.is_some() || request.tids.len() > 0
}

/// How long what runs already is recorded.
pub open spec fn attached_secs(request: ProfileRequest) -> Option<u32> {
    if attaches(request) {
        Some(request.duration_secs)
    } else {
        None
    }
}

/// The text that says what was recorded.
pub open spec fn recorded_text(request: ProfileRequest, target: TargetModel) -> Seq<char> {
    match (request.pid, request.threads_of_pid) {
        (Some(pid), _) => "pid:"@ + decimal(pid as nat) + "\n"@,
        (None, Some(pid)) => "threads-of-pid:"@ + decimal(pid as nat) + " tids:"@ + (match target {
            TargetModel::Threads(tids) => comma_list(tids),
            _ => Seq::empty(),
        }) + "\n"@,
        _ => if request.tids@.len() == 0 {
            command_line(views(request.command@))
        } else {
            "tids:"@ + comma_list(request.tids@) + "\n"@
        },
    }
}

fn command_text(request: &ProfileRequest, target: &PerfRecordTarget) -> (text: String)
    ensures
        text@ == recorded_text(*request, target@),
{
    let mut text = String::new();
    match (request.pid, request.threads_of_pid) {
        (Some(pid), _) => {
            text.append("pid:");
            push_decimal(&mut text, pid as u128);
        },
        (None, Some(pid)) => {
            text.append("threads-of-pid:");
            push_decimal(&mut text, pid as u128);
            text.append(" tids:");
            if let PerfRecordTarget::Threads(tids) = target {
                text.append(join_numbers(tids).as_str());
            }
        },
        _ => {
            if request.tids.len() == 0 {
                return command_line_of(&request.command);
            }
            text.append("tids:");
            text.append(join_numbers(&request.tids).as_str());
        },
    }
    text.append("\n");
    assert(text@ =~= recorded_text(*request, target@));
    text
}

/// The tools that a profile needs.
pub open spec fn perf_tools(symbols: bool) -> Seq<ToolModel> {
    let tools = seq![
        ("perf"@, ToolSource::NixManaged),
        ("inferno-flamegraph"@, ToolSource::NixManaged),
    ];
    if symbols {
        tools.push(("addr2line"@, ToolSource::NixManaged))
    } else {
        tools
    }
}

fn linux_perf_tools(symbols: bool) -> (tools: Vec<ToolSpec>)
    ensures
        views(tools@) == perf_tools(symbols),
{
    let mut tools = one_tool(ToolSpec::nix_managed("perf"));
    let mut renderer = InfernoFlamegraphRenderer::tool_specs();
    let ghost first = views(tools@);
    let ghost second = views(renderer@);
    tools.append(&mut renderer);
    assert(views(tools@) =~= first + second);
    assert(views(tools@) =~= perf_tools(false));
    if symbols {
        tools.push(ToolSpec::nix_managed("addr2line"));
        assert(views(tools@) =~= perf_tools(true));
    }
    tools
}

/// The tools that folding a recording needs.
pub open spec fn fold_tools(symbols: bool, symbolizer: SymbolizerKind) -> Seq<ToolModel> {
    let tools = seq![("perf"@, ToolSource::NixManaged)];
    if symbols && symbolizer == SymbolizerKind::Addr2line {
        tools.push(("addr2line"@, ToolSource::NixManaged))
    } else {
        tools
    }
}

/// The tools that folding a recording needs.
#[must_use]
pub fn linux_perf_fold_tools(symbols: bool, symbolizer: SymbolizerKind) -> (tools: Vec<ToolSpec>)
    ensures
        views(tools@) == fold_tools(symbols, symbolizer),
{
    let mut tools = one_tool(ToolSpec::nix_managed("perf"));
    let outside = match symbolizer {
        SymbolizerKind::Addr2line => true,
        SymbolizerKind::RustAddr2line => false,
    };
    if symbols && outside {
        tools.push(ToolSpec::nix_managed("addr2line"));
    }
    assert(views(tools@) =~= fold_tools(symbols, symbolizer));
    tools
}

/// How the recording of a profile is folded: by periods.
#[must_use]
pub fn fold_options() -> (options: FoldOptions)
    ensures
        options == (FoldOptions { count_periods: true, inline: false }),
{
    FoldOptions { count_periods: true, inline: false }
}

/// Takes a profile of processor time.
#[derive(Clone, Debug, Eq, PartialEq)]
pub struct LinuxPerfBackend {
    pub request: ProfileRequest,
    pub target: PerfRecordTarget,
}

/// The recording of a run.
pub open spec fn perf_recording(root: Seq<char>) -> Seq<char> {
    path_in(root, "profile.raw."@ + "perf.data"@)
}

/// The text that sums folded stacks up.
pub open spec fn folded_summary_text(folded: Seq<char>) -> Seq<char> {
    let lines = lines_from(folded, 0);
    let stacks = folded_stacks_of(lines, lines.len() as int);
    "folded lines: "@ + decimal(lines.len()) + "\nfolded bytes: "@ + decimal(
        vstd::utf8::encode_utf8(folded).len(),
    ) + "\ntotal count: "@ + decimal(count_sum(stacks, stacks.len() as int) as nat) + "\n"@
}

/// The files that a profile leaves at its end.
pub open spec fn perf_files(
    request: ProfileRequest,
    target: TargetModel,
    stdout: Seq<u8>,
    stderr: Seq<u8>,
    folded: Seq<char>,
) -> Seq<FileModel> {
    let root = request.out_dir@;
    seq![
        bytes_in(root, "stdout.log"@, stdout),
        bytes_in(root, "stderr.log"@, stderr),
        text_in(root, "command.txt"@, recorded_text(request, target)),
        text_in(root, "summary.txt"@, folded_summary_text(folded)),
        text_in(root, "tool-errors.log"@, ""@),
    ]
}

impl LinuxPerfBackend {
    /// Takes a profile, when the threads of its process were listed.
    #[must_use]
    pub fn with_thread_lister(request: ProfileRequest, listed: &Vec<u32>) -> (backend:
        LinuxPerfBackend)
        ensures
            backend.request == request,
            backend.target@ == target_of(request, listed@),
    {
        let target = perf_record_target(&request, listed);
        LinuxPerfBackend { request, target }
    }

    /// Takes a profile that needs no list of threads.
    #[must_use]
    pub fn new(request: ProfileRequest) -> (backend: LinuxPerfBackend)
        ensures
            backend.request == request,
            backend.target@ == target_of(request, Seq::empty()),
    {
        let nothing: Vec<u32> = Vec::new();
        assert(nothing@ =~= Seq::empty());
        LinuxPerfBackend::with_thread_lister(request, &nothing)
    }

    /// First the target is recorded.
    #[must_use]
    pub fn start(&self) -> (step: ProfileStep)
        ensures
            step@ == (StepModel::Run {
                files: Seq::empty(),
                command: record_command(
                    self.request.event,
                    self.request.frequency,
                    self.request.call_graph.name(),
                    perf_recording(self.request.out_dir@),
                    self.target@,
                    self.request.duration_secs,
                ),
            }),
    {
        let layout = ArtifactLayout::new(self.request.out_dir.as_str());
        let recording = layout.raw_profile("perf.data");
        ProfileStep::Run {
            files: no_files(),
            command: build_perf_record_command(
                self.request.event,
                self.request.frequency,
                self.request.call_graph.text(),
                recording.as_str(),
                &self.target,
                self.request.duration_secs,
            ),
        }
    }

    /// Then the recording is folded, if there is one.
    #[must_use]
    pub fn after_record(&self, output: &CommandOutput) -> (step: ProfileStep)
        ensures
            ({
                let root = self.request.out_dir@;
                let error = exit_error_text("perf record"@, output.status_code, output.stderr@);
                step@ == if output.succeeded() {
                    StepModel::Fold { files: Seq::empty(), perf_data: perf_recording(root) }
                } else {
                    StepModel::Fail {
                        files: failure_files(root, output.stdout@, output.stderr@, error),
                        error,
                    }
                }
            }),
    {
        let layout = ArtifactLayout::new(self.request.out_dir.as_str());
        if !output.is_success() {
            let error = exit_error("perf record", output);
            return fail_with_output(&layout, output, error);
        }
        ProfileStep::Fold { files: no_files(), perf_data: layout.raw_profile("perf.data") }
    }

    /// Then the stacks are written and rendered.
    #[must_use]
    pub fn after_fold(&self, folded_stacks: String) -> (step: ProfileStep)
        ensures
            step@ == (StepModel::Render {
                files: seq![text_in(self.request.out_dir@, "stacks.folded"@, folded_stacks@)],
                title: "CPU profile"@,
                folded_stacks: folded_stacks@,
                output: path_in(self.request.out_dir@, "flamegraph.svg"@),
            }),
    {
        let layout = ArtifactLayout::new(self.request.out_dir.as_str());
        let mut files = no_files();
        add_file(&mut files, text_file(layout.stacks_folded(), folded_stacks.as_str()));
        assert(views(files@) =~= seq![text_in(layout@, "stacks.folded"@, folded_stacks@)]);
        ProfileStep::Render {
            files,
            request: FlamegraphRequest {
                title: "CPU profile".to_string(),
                folded_stacks,
                output: layout.flamegraph_svg(),
            },
        }
    }

    /// Or the picture could not be rendered.
    #[must_use]
    pub fn after_failed_render(&self, error: String) -> (step: ProfileStep)
        ensures
            step@ == (StepModel::Fail {
                files: seq![
                    text_in(self.request.out_dir@, "tool-errors.log"@, error@ + "\n"@),
                ],
                error: error@,
            }),
    {
        let layout = ArtifactLayout::new(self.request.out_dir.as_str());
        let mut files = no_files();
        add_file(&mut files, error_file(&layout, error.as_str()));
        assert(views(files@) =~= seq![text_in(layout@, "tool-errors.log"@, error@ + "\n"@)]);
        ProfileStep::Fail { files, error }
    }

    /// Then the profile is there.
    #[must_use]
    pub fn after_render(
        &self,
        record: &CommandOutput,
        folded_stacks: &str,
        render_stderr: &Vec<u8>,
    ) -> (step: ProfileStep)
        ensures
            ({
                let root = self.request.out_dir@;
                step@ == (StepModel::Done {
                    files: perf_files(
                        self.request,
                        self.target@,
                        record.stdout@,
                        record.stderr@ + render_stderr@,
                        folded_stacks@,
                    ),
                    outcome: OutcomeModel {
                        backend: BackendName::LinuxPerf,
                        platform: None,
                        exit_status: record.status_code,
                        sample_event: self.request.event,
                        record_target: target_label(self.request),
                        duration_secs: attached_secs(self.request),
                        tools: perf_tools(self.request.symbols),
                        artifacts: standard_artifacts(root).push(perf_recording(root)).push(
                            path_in(root, "stacks.folded"@),
                        ).push(path_in(root, "flamegraph.svg"@)),
                        diagnostics: seq!["perf record executed"@],
                    },
                })
            }),
            summary_of_step(step) matches Some(ProfileSummary::Folded(summary))
                && summarizes(summary, folded_stacks@),
    {
        let layout = ArtifactLayout::new(self.request.out_dir.as_str());
        let mut files = no_files();
        add_file(&mut files, bytes_file(layout.stdout_log(), &record.stdout));
        let mut stderr = vstd::slice::slice_to_vec(record.stderr.as_slice());
        let mut more = vstd::slice::slice_to_vec(render_stderr.as_slice());
        stderr.append(&mut more);
        add_file(&mut files, bytes_file(layout.stderr_log(), &stderr));
        let text = command_text(&self.request, &self.target);
        add_file(&mut files, text_file(layout.command_txt(), text.as_str()));
        let summary = summarize_folded_stacks(folded_stacks);
        let summed = render_folded_stack_summary_text(&summary);
        assert(summed@ =~= folded_summary_text(folded_stacks@));
        add_file(&mut files, text_file(layout.summary_txt(), summed.as_str()));
        add_file(&mut files, text_file(layout.tool_errors_log(), ""));
        assert(views(files@) =~= perf_files(
            self.request,
            self.target@,
            record.stdout@,
            record.stderr@ + render_stderr@,
            folded_stacks@,
        ));
        let mut artifacts = layout.standard_manifest_artifacts();
        add_path(&mut artifacts, layout.raw_profile("perf.data"));
        add_path(&mut artifacts, layout.stacks_folded());
        add_path(&mut artifacts, layout.flamegraph_svg());
        let duration: Option<u32> = if is_attached(&self.request) {
            Some(self.request.duration_secs)
        } else {
            None
        };
        ProfileStep::Done {
            files,
            summary: ProfileSummary::Folded(summary),
            outcome: RunOutcome {
                backend: BackendName::LinuxPerf,
                platform: None,
                exit_status: record.status_code,
                sample_event: self.request.event,
                record_target: record_target_label(&self.request).to_string(),
                duration_secs: duration,
                tools: linux_perf_tools(self.request.symbols),
                artifacts,
                diagnostics: one_text("perf record executed"),
            },
        }
    }
}

// ---------------------------------------------------------------------------
// Laws
// ---------------------------------------------------------------------------

/// Whether arguments hold an option with a value behind it.
pub open spec fn has_option(args: Seq<Seq<char>>, option: Seq<char>, value: Seq<char>) -> bool {
    exists|i: int| 0 <= i < args.len() - 1 && #[trigger] args[i] == option && args[i + 1] == value
}

/// A recorded command stands at the end of the arguments, behind two dashes and unchanged. What
/// runs already is recorded while another command sleeps for as long as it is asked for.
pub proof fn recorded_commands_stand_at_the_end(
    event: PerfEvent,
    frequency: u32,
    callgraph: Seq<char>,
    output: Seq<char>,
    command: Seq<Seq<char>>,
    target: TargetModel,
    duration_secs: u32,
)
    ensures
        ({
            let alone = record_command(
                event,
                frequency,
                callgraph,
                output,
                TargetModel::Command(Seq::empty()),
                duration_secs,
            ).args;
            &&& alone.last() == "--"@
            &&& record_command(
                event,
                frequency,
                callgraph,
                output,
                TargetModel::Command(command),
                duration_secs,
            ).args == alone + command
        }),
        target !is Command ==> ({
            let args = record_command(
                event,
                frequency,
                callgraph,
                output,
                target,
                duration_secs,
            ).args;
            args.skip(args.len() - 3) == seq!["--"@, "sleep"@, decimal(duration_secs as nat)]
        }),
{
    let alone = record_command(
        event,
        frequency,
        callgraph,
        output,
        TargetModel::Command(Seq::empty()),
        duration_secs,
    ).args;
    assert(record_command(
        event,
        frequency,
        callgraph,
        output,
        TargetModel::Command(command),
        duration_secs,
    ).args =~= alone + command);
}

/// The command that records is told what to sample, how often, how callers are found, where the
/// recording goes, and the process or the threads that are recorded.
pub proof fn recordings_get_their_options(
    event: PerfEvent,
    frequency: u32,
    callgraph: Seq<char>,
    output: Seq<char>,
    target: TargetModel,
    duration_secs: u32,
)
    ensures
        ({
            let command = record_command(
                event,
                frequency,
                callgraph,
                output,
                target,
                duration_secs,
            );
            &&& command.program == "perf"@
            &&& command.args[0] == "record"@
            &&& has_option(command.args, "-e"@, event.name())
            &&& has_option(command.args, "-F"@, decimal(frequency as nat))
            &&& has_option(command.args, "--call-graph"@, callgraph)
            &&& has_option(command.args, "-o"@, output)
            &&& target matches TargetModel::Process(pid) ==> has_option(
                command.args,
                "-p"@,
                decimal(pid as nat),
            )
            &&& target matches TargetModel::Threads(tids) ==> has_option(
                command.args,
                "-t"@,
                comma_list(tids),
            )
        }),
{
    let args = record_command(event, frequency, callgraph, output, target, duration_secs).args;
    assert(args[1] == "-e"@ && args[2] == event.name());
    assert(args[3] == "-F"@ && args[4] == decimal(frequency as nat));
    assert(args[6] == "--call-graph"@ && args[7] == callgraph);
    match target {
        TargetModel::Command(_) => {
            assert(args[8] == "-o"@ && args[9] == output);
        },
        TargetModel::Process(pid) => {
            assert(args[8] == "-p"@ && args[9] == decimal(pid as nat));
            assert(args[10] == "-o"@ && args[11] == output);
        },
        TargetModel::Threads(tids) => {
            assert(args[8] == "-t"@ && args[9] == comma_list(tids));
            assert(args[10] == "-o"@ && args[11] == output);
        },
    }
}

/// Cut at its commas, a list of numbers gives back the numbers in their order.
pub proof fn listed_numbers_are_found(numbers: Seq<u32>)
    requires
        numbers.len() > 0,
    ensures
        pieces_from(comma_list(numbers), seq![','], 0) == numbers.map_values(
            |number: u32| decimal(number as nat),
        ),
{
    reveal_strlit(",");
    assert(","@ =~= seq![',']);
    listed_numbers_are_cut(numbers, numbers.len() as int);
    assert(numbers.take(numbers.len() as int) =~= numbers);
}

proof fn listed_numbers_are_cut(numbers: Seq<u32>, count: int)
    requires
        0 < count <= numbers.len(),
        ","@ == seq![','],
    ensures
        pieces_from(joined_with(number_texts(numbers), ","@, count), seq![','], 0) == numbers.take(
            count,
        ).map_values(|number: u32| decimal(number as nat)),
    decreases count,
{
    let text = |number: u32| decimal(number as nat);
    let last = decimal(numbers[count - 1] as nat);
    no_comma_in_a_number(numbers[count - 1] as nat);
    pieces_of_texts_join(last, ',', Seq::empty());
    if count > 1 {
        listed_numbers_are_cut(numbers, count - 1);
        let before = joined_with(number_texts(numbers), ","@, count - 1);
        pieces_of_texts_join(before, ',', last);
        assert(numbers.take(count).map_values(text) =~= numbers.take(count - 1).map_values(text)
            + seq![last]);
    } else {
        assert(numbers.take(count).map_values(text) =~= seq![last]);
    }
}

proof fn no_comma_in_a_number(n: nat)
    ensures
        is_free_of(decimal(n), ','),
    decreases n,
{
    if n >= 10 {
        no_comma_in_a_number(n / 10);
    }
}

/// A process that is asked for is recorded before anything else, then the threads of a process,
/// then single threads, and a command where nothing that runs already is asked for. What runs
/// already is recorded for as long as it is asked for, a command for as long as it runs.
pub proof fn requests_are_recorded_as_they_ask(request: ProfileRequest, listed: Seq<u32>)
    ensures
        request.pid matches Some(pid) ==> target_of(request, listed) == TargetModel::Process(pid),
        request.pid is None && request.threads_of_pid is Some ==> target_of(request, listed)
            == TargetModel::Threads(listed),
        request.pid is None && request.threads_of_pid is None && request.tids@.len() > 0
            ==> target_of(request, listed) == TargetModel::Threads(request.tids@),
        attaches(request) <==> target_of(request, listed) !is Command,
        attached_secs(request) is Some <==> target_of(request, listed) !is Command,
        attached_secs(request) matches Some(secs) ==> secs == request.duration_secs,
        target_of(request, listed) matches TargetModel::Command(command) ==> command == views(
            request.command@,
        ),
        target_label(request) == "command"@ <==> target_of(request, listed) is Command,
{
    reveal_strlit("process");
    reveal_strlit("threads_of_pid");
    reveal_strlit("threads");
    reveal_strlit("command");
    assert("process"@[0] == 'p' && "threads_of_pid"@[0] == 't' && "threads"@[0] == 't'
        && "command"@[0] == 'c');
}

} // verus!
