//! Profiles of processor time with `xctrace`.

use vstd::prelude::*;

use crate::artifacts::{path_in, standard_artifacts, ArtifactLayout};
use crate::backends::heaptrack::{keep_output, traced_files};
use crate::backends::{
    add_file, add_path, error_file, no_files, one_text, one_tool, text_file, text_in,
    OutcomeModel, ProfileRequest, ProfileStep, ProfileSummary, RunOutcome, StepModel,
};
use crate::manifest::BackendName;
use crate::parsers::xctrace::{parse_cpu_rows, rows_of};
use crate::process::{exit_error, exit_error_text, CommandModel, CommandOutput, CommandSpec};
use crate::text::{pieces_from, views};
use crate::tools::{ToolSource, ToolSpec};

verus! {

/// The script that notes the number of the profiled process, and becomes it.
pub open spec fn launch_script() -> Seq<char> {
    "printf '%s\\n' \"$$\" > \"$PYROCLAST_XCTRACE_TARGET_PID\"; exec \"$@\""@
}

/// The command that profiles another.
pub open spec fn xctrace_record_command(
    trace: Seq<char>,
    target_pid: Seq<char>,
    command: Seq<Seq<char>>,
) -> CommandModel {
    let recording = CommandModel::of("xctrace"@).with("record"@).with("--quiet"@).with(
        "--template"@,
    ).with("CPU Profiler"@).with("--output"@).with(trace).with("--no-prompt"@).with(
        "--launch"@,
    ).with("--"@).with("/bin/sh"@).with("-c"@).with(launch_script()).with(
        "pyroclast-xctrace-launch"@,
    );
    CommandModel {
        env: seq![("PYROCLAST_XCTRACE_TARGET_PID"@, target_pid)],
        ..recording
    }.with_all(command)
}

/// The command that profiles another.
#[must_use]
pub fn build_xctrace_record_command(
    trace_path: &str,
    target_pid_path: &str,
    profiled_command: &Vec<String>,
) -> (command: CommandSpec)
    ensures
        command@ == xctrace_record_command(
            trace_path@,
            target_pid_path@,
            views(profiled_command@),
        ),
{
    let recording = CommandSpec::new("xctrace").arg("record").arg("--quiet").arg("--template").arg(
        "CPU Profiler",
    ).arg("--output").arg(trace_path).arg("--no-prompt").arg("--launch").arg("--").arg(
        "/bin/sh",
    ).arg("-c").arg(
        "printf '%s\\n' \"$$\" > \"$PYROCLAST_XCTRACE_TARGET_PID\"; exec \"$@\"",
    ).arg("pyroclast-xctrace-launch");
    let recording = recording.env("PYROCLAST_XCTRACE_TARGET_PID", target_pid_path);
    assert(recording@.env =~= seq![("PYROCLAST_XCTRACE_TARGET_PID"@, target_pid_path@)]);
    recording.args(profiled_command)
}

/// The command that exports a profile.
pub open spec fn xctrace_export_command(trace: Seq<char>, output: Seq<char>) -> CommandModel {
    CommandModel::of("xctrace"@).with("export"@).with("--input"@).with(trace).with(
        "--output"@,
    ).with(output).with("--xpath"@).with("//table"@)
}

/// The command that exports a profile.
#[must_use]
pub fn build_xctrace_export_cpu_command(trace_path: &str, output_xml: &str) -> (command:
    CommandSpec)
    ensures
        command@ == xctrace_export_command(trace_path@, output_xml@),
{
    CommandSpec::new("xctrace").arg("export").arg("--input").arg(trace_path).arg("--output").arg(
        output_xml,
    ).arg("--xpath").arg("//table")
}

/// Takes a profile of processor time.
#[derive(Clone, Debug, Eq, PartialEq)]
pub struct MacosXctraceBackend {
    pub request: ProfileRequest,
}

/// The profile of a run.
pub open spec fn xctrace_trace(root: Seq<char>) -> Seq<char> {
    path_in(root, "profile.raw."@ + "xctrace.trace"@)
}

/// The exported profile of a run.
pub open spec fn xctrace_xml(root: Seq<char>) -> Seq<char> {
    path_in(root, "profile.raw."@ + "xctrace.xml"@)
}

impl MacosXctraceBackend {
    /// Takes a profile of processor time.
    #[must_use]
    pub fn new(request: ProfileRequest) -> (backend: MacosXctraceBackend)
        ensures
            backend.request == request,
    {
        MacosXctraceBackend { request }
    }

    /// First the command is profiled.
    #[must_use]
    pub fn start(&self) -> (step: ProfileStep)
        ensures
            step@ == (StepModel::Run {
                files: Seq::empty(),
                command: xctrace_record_command(
                    xctrace_trace(self.request.out_dir@),
                    path_in(self.request.out_dir@, "xctrace-target.pid"@),
                    views(self.request.command@),
                ),
            }),
    {
        let layout = ArtifactLayout::new(self.request.out_dir.as_str());
        let trace = layout.raw_profile("xctrace.trace");
        let target = crate::artifacts::join_path(layout.root(), "xctrace-target.pid");
        ProfileStep::Run {
            files: no_files(),
            command: build_xctrace_record_command(
                trace.as_str(),
                target.as_str(),
                &self.request.command,
            ),
        }
    }

    /// Then the profile is exported, if the command succeeded.
    #[must_use]
    pub fn after_record(&self, output: &CommandOutput) -> (step: ProfileStep)
        ensures
            ({
                let root = self.request.out_dir@;
                let files = traced_files(root, *output, views(self.request.command@));
                let error = exit_error_text("xctrace record"@, output.status_code, output.stderr@);
                step@ == if output.succeeded() {
                    StepModel::Run {
                        files,
                        command: xctrace_export_command(xctrace_trace(root), xctrace_xml(root)),
                    }
                } else {
                    StepModel::Fail {
                        files: files.push(text_in(root, "tool-errors.log"@, error + "\n"@)),
                        error,
                    }
                }
            }),
    {
        let layout = ArtifactLayout::new(self.request.out_dir.as_str());
        let mut files = keep_output(&layout, output, &self.request.command);
        if !output.is_success() {
            let error = exit_error("xctrace record", output);
            add_file(&mut files, error_file(&layout, error.as_str()));
            return ProfileStep::Fail { files, error };
        }
        let trace = layout.raw_profile("xctrace.trace");
        let xml = layout.raw_profile("xctrace.xml");
        ProfileStep::Run {
            files,
            command: build_xctrace_export_cpu_command(trace.as_str(), xml.as_str()),
        }
    }

    /// Then the exported profile is read, if there is one.
    #[must_use]
    pub fn after_export(&self, output: &CommandOutput) -> (step: ProfileStep)
        ensures
            ({
                let root = self.request.out_dir@;
                let error = exit_error_text("xctrace export"@, output.status_code, output.stderr@);
                step@ == if output.succeeded() {
                    StepModel::Read { files: Seq::empty(), path: xctrace_xml(root) }
                } else {
                    StepModel::Fail {
                        files: seq![text_in(root, "tool-errors.log"@, error + "\n"@)],
                        error,
                    }
                }
            }),
    {
        let layout = ArtifactLayout::new(self.request.out_dir.as_str());
        let mut files = no_files();
        if !output.is_success() {
            let error = exit_error("xctrace export", output);
            add_file(&mut files, error_file(&layout, error.as_str()));
            assert(views(files@) =~= seq![
                text_in(layout@, "tool-errors.log"@, error@ + "\n"@),
            ]);
            return ProfileStep::Fail { files, error };
        }
        ProfileStep::Read { files, path: layout.raw_profile("xctrace.xml") }
    }

    /// Then the rows of the profile are there.
    #[must_use]
    pub fn after_read(&self, record_status: Option<i32>, xml: &str) -> (step: ProfileStep)
        ensures
            ({
                let root = self.request.out_dir@;
                step@ == (StepModel::Done {
                    files: seq![text_in(root, "tool-errors.log"@, ""@)],
                    outcome: OutcomeModel {
                        backend: BackendName::MacosXctrace,
                        platform: Some("macos"@),
                        exit_status: record_status,
                        sample_event: self.request.event,
                        record_target: "command"@,
                        duration_secs: None,
                        tools: seq![("xctrace"@, ToolSource::AppleProvided)],
                        artifacts: standard_artifacts(root).push(xctrace_trace(root)).push(
                            xctrace_xml(root),
                        ),
                        diagnostics: seq!["xctrace record/export executed"@],
                    },
                })
            }),
            crate::backends::summary_of_step(step) matches Some(ProfileSummary::Xctrace(rows))
                && views(rows@) == rows_of(
                pieces_from(xml@, "<row>"@, 0),
                pieces_from(xml@, "<row>"@, 0).len() as int,
            ),
    {
        let layout = ArtifactLayout::new(self.request.out_dir.as_str());
        let mut files = no_files();
        add_file(&mut files, text_file(layout.tool_errors_log(), ""));
        assert(views(files@) =~= seq![text_in(layout@, "tool-errors.log"@, ""@)]);
        let mut artifacts = layout.standard_manifest_artifacts();
        add_path(&mut artifacts, layout.raw_profile("xctrace.trace"));
        add_path(&mut artifacts, layout.raw_profile("xctrace.xml"));
        ProfileStep::Done {
            files,
            summary: ProfileSummary::Xctrace(parse_cpu_rows(xml)),
            outcome: RunOutcome {
                backend: BackendName::MacosXctrace,
                platform: Some("macos".to_string()),
                exit_status: record_status,
                sample_event: self.request.event,
                record_target: "command".to_string(),
                duration_secs: None,
                tools: one_tool(ToolSpec::apple_provided("xctrace")),
                artifacts,
                diagnostics: one_text("xctrace record/export executed"),
            },
        }
    }
}

// ---------------------------------------------------------------------------
// Laws
// ---------------------------------------------------------------------------

/// A profiled command stands at the end of the arguments, unchanged; the profile goes to the place
/// that is asked for, and the script is told where to note the number of the process.
pub proof fn profiled_commands_stand_at_the_end(
    trace: Seq<char>,
    target_pid: Seq<char>,
    command: Seq<Seq<char>>,
)
    ensures
        ({
            let alone = xctrace_record_command(trace, target_pid, Seq::empty());
            &&& exists|i: int|
                0 <= i < alone.args.len() - 1 && #[trigger] alone.args[i] == "--output"@
                    && alone.args[i + 1] == trace
            &&& xctrace_record_command(trace, target_pid, command).args == alone.args + command
            &&& xctrace_record_command(trace, target_pid, command).env.len() == 1
            &&& xctrace_record_command(trace, target_pid, command).env[0].1 == target_pid
        }),
{
    let alone = xctrace_record_command(trace, target_pid, Seq::empty());
    assert(alone.args[4] == "--output"@ && alone.args[5] == trace);
    assert(xctrace_record_command(trace, target_pid, command).args =~= alone.args + command);
}

} // verus!
