//! Profiles step by step: what to run next, which files to leave, and what a run came to.

use vstd::prelude::*;
use vstd::string::StringExecFns;
use vstd::utf8::encode_utf8;

use crate::artifacts::{path_in, ArtifactLayout};
use crate::cli::{
    copy_numbers, copy_text, copy_texts, OffcpuMethod, PerfCallGraph, PerfEvent, ProfileInvocation,
    ProfileKind, SymbolizerKind,
};
use crate::flamegraph::FlamegraphRequest;
use crate::manifest::{BackendName, RunManifest};
use crate::parsers::heaptrack::HeaptrackSummary;
use crate::parsers::xctrace::XctraceRowText;
use crate::process::{CommandModel, CommandOutput, CommandSpec};
use crate::summary::threads::FoldedStackSummary;
use crate::text::{join_texts, joined_with, same_text, text_view, views};
use crate::tools::{ToolModel, ToolSpec};

pub mod fake;
pub mod heaptrack;
pub mod linux_perf;
pub mod macos_xctrace;
pub mod offcpu;
pub mod strace;

verus! {

/// A profile to take, and how.
#[derive(Clone, Debug, Eq, PartialEq)]
pub struct ProfileRequest {
    pub kind: ProfileKind,
    pub command: Vec<String>,
    pub out_dir: String,
    pub name: Option<String>,
    pub json: bool,
    pub symbols: bool,
    pub symbolizer: SymbolizerKind,
    pub frequency: u32,
    pub event: PerfEvent,
    pub call_graph: PerfCallGraph,
    pub pid: Option<u32>,
    pub tids: Vec<u32>,
    pub threads_of_pid: Option<u32>,
    pub offcpu_method: Option<OffcpuMethod>,
    pub duration_secs: u32,
}

/// A profile that was taken.
#[derive(Clone, Debug, Eq, PartialEq)]
pub struct ProfileResult {
    pub layout: ArtifactLayout,
    pub manifest: RunManifest,
}

/// Where a profile goes when nothing is said.
pub open spec fn default_directory() -> Seq<char> {
    "pyroclast-runs/latest"@
}

/// The request that an invocation makes.
#[must_use]
pub fn profile_request(invocation: &ProfileInvocation) -> (request: ProfileRequest)
    ensures
        request.kind == invocation.kind,
        views(request.command@) == views(invocation.command@),
        request.out_dir@ == match text_view(invocation.out) {
            Some(out) => out,
            None => default_directory(),
        },
        text_view(request.name) == text_view(invocation.name),
        request.json == invocation.json,
        request.symbols == invocation.symbols,
        request.symbolizer == invocation.symbolizer,
        request.frequency == invocation.frequency,
        request.event == invocation.event,
        request.call_graph == invocation.call_graph,
        request.pid == invocation.pid,
        request.tids@ == invocation.tids@,
        request.threads_of_pid == invocation.threads_of_pid,
        request.offcpu_method is None,
        request.duration_secs == invocation.duration_secs,
{
    let out_dir = match &invocation.out {
        Some(out) => out.clone(),
        None => "pyroclast-runs/latest".to_string(),
    };
    ProfileRequest {
        kind: invocation.kind,
        command: copy_texts(&invocation.command),
        out_dir,
        name: copy_text(&invocation.name),
        json: invocation.json,
        symbols: invocation.symbols,
        symbolizer: invocation.symbolizer,
        frequency: invocation.frequency,
        event: invocation.event,
        call_graph: invocation.call_graph,
        pid: invocation.pid,
        tids: copy_numbers(&invocation.tids),
        threads_of_pid: invocation.threads_of_pid,
        offcpu_method: None,
        duration_secs: invocation.duration_secs,
    }
}

/// What takes a profile of a kind on a platform; where nothing can, a stand-in does.
pub open spec fn backend_on(kind: ProfileKind, platform: Seq<char>) -> BackendName {
    match kind {
        ProfileKind::Cpu => if platform == "linux"@ {
            BackendName::LinuxPerf
        } else if platform == "macos"@ {
            BackendName::MacosXctrace
        } else {
            BackendName::Fake
        },
        ProfileKind::Latency => if platform == "linux"@ {
            BackendName::Strace
        } else {
            BackendName::Fake
        },
        ProfileKind::Memory => if platform == "linux"@ {
            BackendName::Heaptrack
        } else {
            BackendName::Fake
        },
        ProfileKind::Offcpu => if platform == "linux"@ {
            BackendName::Offcpu
        } else {
            BackendName::Fake
        },
        ProfileKind::Async => BackendName::Fake,
    }
}

/// What takes a profile of a kind on a platform.
#[must_use]
pub fn backend_for(kind: ProfileKind, platform: &str) -> (backend: BackendName)
    ensures
        backend == backend_on(kind, platform@),
{
    let linux = same_text(platform, "linux");
    match kind {
        ProfileKind::Cpu => if linux {
            BackendName::LinuxPerf
        } else if same_text(platform, "macos") {
            BackendName::MacosXctrace
        } else {
            BackendName::Fake
        },
        ProfileKind::Latency => if linux {
            BackendName::Strace
        } else {
            BackendName::Fake
        },
        ProfileKind::Memory => if linux {
            BackendName::Heaptrack
        } else {
            BackendName::Fake
        },
        ProfileKind::Offcpu => if linux {
            BackendName::Offcpu
        } else {
            BackendName::Fake
        },
        ProfileKind::Async => BackendName::Fake,
    }
}

// ---------------------------------------------------------------------------
// Files
// ---------------------------------------------------------------------------

/// A file to write.
#[derive(Clone, Debug, Eq, PartialEq)]
pub struct ArtifactFile {
    pub path: String,
    pub contents: Vec<u8>,
}

/// A file: its path and its bytes.
pub type FileModel = (Seq<char>, Seq<u8>);

impl View for ArtifactFile {
    type V = FileModel;

    open spec fn view(&self) -> FileModel {
        (self.path@, self.contents@)
    }
}

/// A file of a run with some text.
pub open spec fn text_in(root: Seq<char>, name: Seq<char>, text: Seq<char>) -> FileModel {
    (path_in(root, name), encode_utf8(text))
}

/// A file of a run with some bytes.
pub open spec fn bytes_in(root: Seq<char>, name: Seq<char>, bytes: Seq<u8>) -> FileModel {
    (path_in(root, name), bytes)
}

/// A file with some text.
pub fn text_file(path: String, text: &str) -> (file: ArtifactFile)
    ensures
        file@ == (path@, encode_utf8(text@)),
{
    ArtifactFile { path, contents: vstd::slice::slice_to_vec(text.as_bytes()) }
}

/// A file with some bytes.
pub fn bytes_file(path: String, bytes: &Vec<u8>) -> (file: ArtifactFile)
    ensures
        file@ == (path@, bytes@),
{
    ArtifactFile { path, contents: vstd::slice::slice_to_vec(bytes.as_slice()) }
}

/// The text of a command, on a line.
pub open spec fn command_line(command: Seq<Seq<char>>) -> Seq<char> {
    joined_with(command, " "@, command.len() as int) + "\n"@
}

/// The text of a command, on a line.
pub fn command_line_of(command: &Vec<String>) -> (text: String)
    ensures
        text@ == command_line(views(command@)),
{
    let mut text = join_texts(command, " ");
    text.append("\n");
    text
}

// ---------------------------------------------------------------------------
// Steps
// ---------------------------------------------------------------------------

/// What a run came to: what its record says beside the request.
#[derive(Clone, Debug, Eq, PartialEq)]
pub struct RunOutcome {
    pub backend: BackendName,
    pub platform: Option<String>,
    pub exit_status: Option<i32>,
    pub sample_event: PerfEvent,
    pub record_target: String,
    pub duration_secs: Option<u32>,
    pub tools: Vec<ToolSpec>,
    pub artifacts: Vec<String>,
    pub diagnostics: Vec<String>,
}

/// The contents of a [`RunOutcome`].
#[verifier::ext_equal]
pub struct OutcomeModel {
    pub backend: BackendName,
    pub platform: Option<Seq<char>>,
    pub exit_status: Option<i32>,
    pub sample_event: PerfEvent,
    pub record_target: Seq<char>,
    pub duration_secs: Option<u32>,
    pub tools: Seq<ToolModel>,
    pub artifacts: Seq<Seq<char>>,
    pub diagnostics: Seq<Seq<char>>,
}

impl View for RunOutcome {
    type V = OutcomeModel;

    open spec fn view(&self) -> OutcomeModel {
        OutcomeModel {
            backend: self.backend,
            platform: text_view(self.platform),
            exit_status: self.exit_status,
            sample_event: self.sample_event,
            record_target: self.record_target@,
            duration_secs: self.duration_secs,
            tools: views(self.tools@),
            artifacts: views(self.artifacts@),
            diagnostics: views(self.diagnostics@),
        }
    }
}

/// What is summed up in the summary file of a run.
#[derive(Clone, Debug, Eq, PartialEq)]
pub enum ProfileSummary {
    Fake,
    Folded(FoldedStackSummary),
    Heaptrack(HeaptrackSummary),
    Xctrace(Vec<XctraceRowText>),
    OffcpuFolded { method: OffcpuMethod, folded: FoldedStackSummary },
    PerfSched { method: OffcpuMethod, timehist_raw: String },
}

/// The next step of a profile. Files are written first, each time.
#[derive(Clone, Debug, Eq, PartialEq)]
pub enum ProfileStep {
    /// A command is run.
    Run { files: Vec<ArtifactFile>, command: CommandSpec },
    /// A recording is folded.
    Fold { files: Vec<ArtifactFile>, perf_data: String },
    /// A flame graph is rendered.
    Render { files: Vec<ArtifactFile>, request: FlamegraphRequest },
    /// A text is read.
    Read { files: Vec<ArtifactFile>, path: String },
    /// The profile failed.
    Fail { files: Vec<ArtifactFile>, error: String },
    /// The profile is there.
    Done { files: Vec<ArtifactFile>, summary: ProfileSummary, outcome: RunOutcome },
}

/// The contents of a [`ProfileStep`], but for the summary of a profile that is there.
#[verifier::ext_equal]
pub enum StepModel {
    Run { files: Seq<FileModel>, command: CommandModel },
    Fold { files: Seq<FileModel>, perf_data: Seq<char> },
    Render {
        files: Seq<FileModel>,
        title: Seq<char>,
        folded_stacks: Seq<char>,
        output: Seq<char>,
    },
    Read { files: Seq<FileModel>, path: Seq<char> },
    Fail { files: Seq<FileModel>, error: Seq<char> },
    Done { files: Seq<FileModel>, outcome: OutcomeModel },
}

impl View for ProfileStep {
    type V = StepModel;

    open spec fn view(&self) -> StepModel {
        match *self {
            ProfileStep::Run { files, command } => StepModel::Run {
                files: views(files@),
                command: command@,
            },
            ProfileStep::Fold { files, perf_data } => StepModel::Fold {
                files: views(files@),
                perf_data: perf_data@,
            },
            ProfileStep::Render { files, request } => StepModel::Render {
                files: views(files@),
                title: request.title@,
                folded_stacks: request.folded_stacks@,
                output: request.output@,
            },
            ProfileStep::Read { files, path } => StepModel::Read {
                files: views(files@),
                path: path@,
            },
            ProfileStep::Fail { files, error } => StepModel::Fail {
                files: views(files@),
                error: error@,
            },
            ProfileStep::Done { files, summary: _, outcome } => StepModel::Done {
                files: views(files@),
                outcome: outcome@,
            },
        }
    }
}

/// The summary of a profile that is there.
pub open spec fn summary_of_step(step: ProfileStep) -> Option<ProfileSummary> {
    match step {
        ProfileStep::Done { files: _, summary, outcome: _ } => Some(summary),
        _ => None,
    }
}

/// No files.
pub fn no_files() -> (files: Vec<ArtifactFile>)
    ensures
        views(files@) == Seq::<FileModel>::empty(),
{
    let files: Vec<ArtifactFile> = Vec::new();
    assert(views(files@) =~= Seq::empty());
    files
}

/// Adds a file.
pub fn add_file(files: &mut Vec<ArtifactFile>, file: ArtifactFile)
    ensures
        views(final(files)@) == views(old(files)@).push(file@),
{
    let ghost before = views(files@);
    files.push(file);
    assert(views(files@) =~= before.push(file@));
}

/// The files of a failure: what the tool printed, and the error.
pub open spec fn failure_files(
    root: Seq<char>,
    stdout: Seq<u8>,
    stderr: Seq<u8>,
    error: Seq<char>,
) -> Seq<FileModel> {
    seq![
        bytes_in(root, "stdout.log"@, stdout),
        bytes_in(root, "stderr.log"@, stderr),
        text_in(root, "tool-errors.log"@, error + "\n"@),
    ]
}

/// The step after a command failed whose output is kept.
pub fn fail_with_output(layout: &ArtifactLayout, output: &CommandOutput, error: String) -> (step:
    ProfileStep)
    ensures
        step@ == (StepModel::Fail {
            files: failure_files(layout@, output.stdout@, output.stderr@, error@),
            error: error@,
        }),
{
    let mut files = no_files();
    add_file(&mut files, bytes_file(layout.stdout_log(), &output.stdout));
    add_file(&mut files, bytes_file(layout.stderr_log(), &output.stderr));
    add_file(&mut files, error_file(layout, error.as_str()));
    assert(views(files@) =~= failure_files(layout@, output.stdout@, output.stderr@, error@));
    ProfileStep::Fail { files, error }
}

/// The file with an error.
pub fn error_file(layout: &ArtifactLayout, error: &str) -> (file: ArtifactFile)
    ensures
        file@ == text_in(layout@, "tool-errors.log"@, error@ + "\n"@),
{
    let text = crate::text::joined(error, "\n");
    text_file(layout.tool_errors_log(), text.as_str())
}

/// What the machine says of a run.
#[derive(Clone, Debug, Eq, PartialEq)]
pub struct HostFacts {
    pub cwd: String,
    pub platform: String,
    pub started_at_unix_ms: u128,
    pub ended_at_unix_ms: u128,
    pub tool_versions: Vec<(String, String)>,
}

/// The record of a run.
#[must_use]
pub fn run_manifest(request: &ProfileRequest, outcome: RunOutcome, host: HostFacts) -> (manifest:
    RunManifest)
    ensures
        views(manifest.command@) == views(request.command@),
        manifest.cwd@ == host.cwd@,
        manifest.profile_kind == request.kind,
        manifest.requested_backend == outcome.backend,
        manifest.actual_backend == outcome.backend,
        manifest.fallback_reason is None,
        manifest.platform@ == match text_view(outcome.platform) {
            Some(platform) => platform,
            None => host.platform@,
        },
        manifest.started_at_unix_ms == host.started_at_unix_ms,
        manifest.ended_at_unix_ms == Some(host.ended_at_unix_ms),
        manifest.exit_status == outcome.exit_status,
        manifest.sample_frequency == request.frequency,
        manifest.sample_event == outcome.sample_event,
        manifest.call_graph == request.call_graph,
        manifest.record_target@ == outcome.record_target@,
        manifest.duration_secs == outcome.duration_secs,
        manifest.symbols == request.symbols,
        manifest.tool_versions@ == host.tool_versions@,
        views(manifest.artifacts@) == views(outcome.artifacts@),
        views(manifest.diagnostics@) == views(outcome.diagnostics@),
{
    let platform = match outcome.platform {
        Some(platform) => platform,
        None => host.platform,
    };
    RunManifest {
        command: copy_texts(&request.command),
        cwd: host.cwd,
        profile_kind: request.kind,
        requested_backend: outcome.backend,
        actual_backend: outcome.backend,
        fallback_reason: None,
        platform,
        started_at_unix_ms: host.started_at_unix_ms,
        ended_at_unix_ms: Some(host.ended_at_unix_ms),
        exit_status: outcome.exit_status,
        sample_frequency: request.frequency,
        sample_event: outcome.sample_event,
        call_graph: request.call_graph,
        record_target: outcome.record_target,
        duration_secs: outcome.duration_secs,
        symbols: request.symbols,
        tool_versions: host.tool_versions,
        artifacts: outcome.artifacts,
        diagnostics: outcome.diagnostics,
    }
}

/// One text.
pub fn one_text(text: &str) -> (texts: Vec<String>)
    ensures
        views(texts@) == seq![text@],
{
    let mut texts: Vec<String> = Vec::new();
    texts.push(text.to_string());
    assert(views(texts@) =~= seq![text@]);
    texts
}

/// Adds a path.
pub fn add_path(paths: &mut Vec<String>, path: String)
    ensures
        views(final(paths)@) == views(old(paths)@).push(path@),
{
    let ghost before = views(paths@);
    paths.push(path);
    assert(views(paths@) =~= before.push(path@));
}

/// One tool.
pub fn one_tool(tool: ToolSpec) -> (tools: Vec<ToolSpec>)
    ensures
        views(tools@) == seq![tool@],
{
    let mut tools: Vec<ToolSpec> = Vec::new();
    tools.push(tool);
    assert(views(tools@) =~= seq![tool@]);
    tools
}

} // verus!
