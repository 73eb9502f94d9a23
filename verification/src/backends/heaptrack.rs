//! Profiles of memory with `heaptrack`.

use vstd::prelude::*;

use crate::artifacts::{path_in, standard_artifacts, ArtifactLayout};
use crate::backends::{
    add_file, add_path, bytes_file, bytes_in, command_line, command_line_of, error_file, no_files,
    one_text, one_tool, text_file, text_in, FileModel, OutcomeModel, ProfileRequest, ProfileStep,
    ProfileSummary, RunOutcome, StepModel,
};
use crate::manifest::BackendName;
use crate::parsers::heaptrack::{
    last_number, number_text, parse_heaptrack_summary, render_heaptrack_summary_text,
};
use crate::process::{exit_error, exit_error_text, CommandModel, CommandOutput, CommandSpec};
use crate::text::{lines_from, text_from_utf8_lossy, utf8_lossy, views};
use crate::tools::{ToolSource, ToolSpec};

verus! {

/// The command that traces the memory of another.
pub open spec fn heaptrack_command(output: Seq<char>, command: Seq<Seq<char>>) -> CommandModel {
    CommandModel::of("heaptrack"@).with("--record-only"@).with("-o"@).with(output).with_all(
        command,
    )
}

/// The command that traces the memory of another.
#[must_use]
pub fn build_heaptrack_command(output_prefix: &str, profiled_command: &Vec<String>) -> (command:
    CommandSpec)
    ensures
        command@ == heaptrack_command(output_prefix@, views(profiled_command@)),
{
    CommandSpec::new("heaptrack").arg("--record-only").arg("-o").arg(output_prefix).args(
        profiled_command,
    )
}

/// The command that sums up a trace.
#[must_use]
pub fn build_heaptrack_print_command(raw_output: &str) -> (command: CommandSpec)
    ensures
        command@ == CommandModel::of("heaptrack_print"@).with(raw_output@),
{
    CommandSpec::new("heaptrack_print").arg(raw_output)
}

/// Takes a profile of memory.
#[derive(Clone, Debug, Eq, PartialEq)]
pub struct HeaptrackBackend {
    pub request: ProfileRequest,
}

/// The trace of a run.
pub open spec fn heaptrack_trace(root: Seq<char>) -> Seq<char> {
    path_in(root, "profile.raw."@ + "heaptrack"@)
}

/// The files that a traced command leaves.
pub open spec fn traced_files(
    root: Seq<char>,
    output: CommandOutput,
    command: Seq<Seq<char>>,
) -> Seq<FileModel> {
    seq![
        bytes_in(root, "stdout.log"@, output.stdout@),
        bytes_in(root, "stderr.log"@, output.stderr@),
        text_in(root, "command.txt"@, command_line(command)),
    ]
}

/// Writes the files that a traced command leaves.
pub fn keep_output(layout: &ArtifactLayout, output: &CommandOutput, command: &Vec<String>) -> (files:
    Vec<crate::backends::ArtifactFile>)
    ensures
        views(files@) == traced_files(layout@, *output, views(command@)),
{
    let mut files = no_files();
    add_file(&mut files, bytes_file(layout.stdout_log(), &output.stdout));
    add_file(&mut files, bytes_file(layout.stderr_log(), &output.stderr));
    let text = command_line_of(command);
    add_file(&mut files, text_file(layout.command_txt(), text.as_str()));
    assert(views(files@) =~= traced_files(layout@, *output, views(command@)));
    files
}

/// The summary text of what `heaptrack_print` printed.
pub open spec fn heaptrack_text(printed: Seq<char>) -> Seq<char> {
    let lines = lines_from(printed, 0);
    let count = lines.len() as int;
    "total allocations: "@ + number_text(last_number(lines, "total allocations:"@, count))
        + "\npeak heap bytes: "@ + number_text(
        last_number(lines, "peak heap memory consumption:"@, count),
    ) + "\n"@
}

impl HeaptrackBackend {
    /// Takes a profile of memory.
    #[must_use]
    pub fn new(request: ProfileRequest) -> (backend: HeaptrackBackend)
        ensures
            backend.request == request,
    {
        HeaptrackBackend { request }
    }

    /// First the command is traced.
    #[must_use]
    pub fn start(&self) -> (step: ProfileStep)
        ensures
            step@ == (StepModel::Run {
                files: Seq::empty(),
                command: heaptrack_command(
                    heaptrack_trace(self.request.out_dir@),
                    views(self.request.command@),
                ),
            }),
    {
        let layout = ArtifactLayout::new(self.request.out_dir.as_str());
        let trace = layout.raw_profile("heaptrack");
        ProfileStep::Run {
            files: no_files(),
            command: build_heaptrack_command(trace.as_str(), &self.request.command),
        }
    }

    /// Then the trace is summed up, if the command succeeded.
    #[must_use]
    pub fn after_record(&self, output: &CommandOutput) -> (step: ProfileStep)
        ensures
            ({
                let root = self.request.out_dir@;
                let files = traced_files(root, *output, views(self.request.command@));
                let error = exit_error_text("heaptrack"@, output.status_code, output.stderr@);
                step@ == if output.succeeded() {
                    StepModel::Run {
                        files,
                        command: CommandModel::of("heaptrack_print"@).with(heaptrack_trace(root)),
                    }
                } else {
                    StepModel::Fail {
                        files: files.push(text_in(root, "tool-errors.log"@, error + "\n"@)),
                        error,
                    }
                }
            }),
    {
        let layout = ArtifactLayout::new(self.request.out_dir.as_str());
        let mut files = keep_output(&layout, output, &self.request.command);
        if !output.is_success() {
            let error = exit_error("heaptrack", output);
            add_file(&mut files, error_file(&layout, error.as_str()));
            return ProfileStep::Fail { files, error };
        }
        let trace = layout.raw_profile("heaptrack");
        ProfileStep::Run { files, command: build_heaptrack_print_command(trace.as_str()) }
    }

    /// Then the summary is written, if there is one.
    #[must_use]
    pub fn after_print(&self, record_status: Option<i32>, output: &CommandOutput) -> (step:
        ProfileStep)
        ensures
            ({
                let root = self.request.out_dir@;
                let error = exit_error_text("heaptrack_print"@, output.status_code, output.stderr@);
                let printed = utf8_lossy(output.stdout@);
                step@ == if output.succeeded() {
                    StepModel::Done {
                        files: seq![
                            text_in(root, "summary.txt"@, heaptrack_text(printed)),
                            text_in(root, "tool-errors.log"@, ""@),
                        ],
                        outcome: OutcomeModel {
                            backend: BackendName::Heaptrack,
                            platform: None,
                            exit_status: record_status,
                            sample_event: self.request.event,
                            record_target: "command"@,
                            duration_secs: None,
                            tools: seq![("heaptrack"@, ToolSource::NixManaged)],
                            artifacts: standard_artifacts(root).push(heaptrack_trace(root)),
                            diagnostics: seq!["heaptrack executed"@],
                        },
                    }
                } else {
                    StepModel::Fail {
                        files: seq![text_in(root, "tool-errors.log"@, error + "\n"@)],
                        error,
                    }
                }
            }),
            output.succeeded() ==> (crate::backends::summary_of_step(
                step,
            ) matches Some(ProfileSummary::Heaptrack(summary)) && ({
                let lines = lines_from(utf8_lossy(output.stdout@), 0);
                summary.total_allocations == last_number(
                    lines,
                    "total allocations:"@,
                    lines.len() as int,
                ) && summary.peak_heap_bytes == last_number(
                    lines,
                    "peak heap memory consumption:"@,
                    lines.len() as int,
                )
            })),
    {
        let layout = ArtifactLayout::new(self.request.out_dir.as_str());
        let mut files = no_files();
        if !output.is_success() {
            let error = exit_error("heaptrack_print", output);
            add_file(&mut files, error_file(&layout, error.as_str()));
            assert(views(files@) =~= seq![
                text_in(layout@, "tool-errors.log"@, error@ + "\n"@),
            ]);
            return ProfileStep::Fail { files, error };
        }
        let printed = text_from_utf8_lossy(output.stdout.as_slice());
        let summary = parse_heaptrack_summary(printed.as_str());
        let text = render_heaptrack_summary_text(&summary);
        assert(text@ =~= heaptrack_text(printed@));
        add_file(&mut files, text_file(layout.summary_txt(), text.as_str()));
        add_file(&mut files, text_file(layout.tool_errors_log(), ""));
        assert(views(files@) =~= seq![
            text_in(layout@, "summary.txt"@, text@),
            text_in(layout@, "tool-errors.log"@, ""@),
        ]);
        let mut artifacts = layout.standard_manifest_artifacts();
        add_path(&mut artifacts, layout.raw_profile("heaptrack"));
        ProfileStep::Done {
            files,
            summary: ProfileSummary::Heaptrack(summary),
            outcome: RunOutcome {
                backend: BackendName::Heaptrack,
                platform: None,
                exit_status: record_status,
                sample_event: self.request.event,
                record_target: "command".to_string(),
                duration_secs: None,
                tools: one_tool(ToolSpec::nix_managed("heaptrack")),
                artifacts,
                diagnostics: one_text("heaptrack executed"),
            },
        }
    }
}

// ---------------------------------------------------------------------------
// Laws
// ---------------------------------------------------------------------------

/// A command whose memory is traced stands at the end of the arguments, unchanged; the trace goes
/// to the output that is asked for.
pub proof fn traced_commands_stand_at_the_end(output: Seq<char>, command: Seq<Seq<char>>)
    ensures
        ({
            let alone = heaptrack_command(output, Seq::empty()).args;
            &&& alone.len() >= 2
            &&& alone[alone.len() - 2] == "-o"@ && alone.last() == output
            &&& heaptrack_command(output, command).args == alone + command
        }),
{
    let alone = heaptrack_command(output, Seq::empty()).args;
    assert(heaptrack_command(output, command).args =~= alone + command);
}

} // verus!
