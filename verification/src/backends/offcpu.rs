//! Profiles of the time that a command does not run.

use vstd::prelude::*;
use vstd::string::StringExecFns;

use crate::artifacts::{path_in, standard_artifacts, ArtifactLayout};
use crate::backends::linux_perf::{
    attaches, build_perf_record_command, fold_tools, folded_summary_text, is_attached,
    linux_perf_fold_tools, perf_recording, record_command, PerfRecordTarget, TargetModel,
};
use crate::backends::{
    add_file, add_path, bytes_file, bytes_in, command_line, command_line_of, fail_with_output,
    failure_files, no_files, one_text, one_tool, summary_of_step, text_file, text_in,
    ArtifactFile, FileModel, OutcomeModel, ProfileRequest, ProfileStep, ProfileSummary, RunOutcome, StepModel,
};
use crate::cli::{copy_texts, PerfEvent};
use crate::manifest::BackendName;
use crate::parsers::bpftrace::{collapse_offcpu, collapsed_from};
use crate::process::{exit_error, exit_error_text, CommandModel, CommandOutput, CommandSpec};
use crate::summary::threads::{
    render_folded_stack_summary_text, summarize_folded_stacks, summarizes,
};
use crate::text::{
    decimal, join_texts, joined, joined_with, lines_from, push_decimal, text_from_utf8_lossy,
    utf8_lossy, views,
};
use crate::tools::{ToolModel, ToolSource, ToolSpec};

pub use crate::cli::OffcpuMethod;

verus! {

/// The program that sums up how long each stack waited, until some seconds have passed.
pub open spec fn offcpu_program(duration_secs: u32) -> Seq<char> {
    "\ntracepoint:sched:sched_switch\n{\n  if (args->prev_state != 0) {\n    @start[args->prev_pid] = nsecs;\n  }\n  if (@start[args->next_pid]) {\n    @offcpu[kstack] = sum(nsecs - @start[args->next_pid]);\n    delete(@start[args->next_pid]);\n  }\n}\n\ninterval:s:"@
        + decimal(duration_secs as nat) + "\n{\n  exit();\n}\n"@
}

fn offcpu_bpftrace_program(duration_secs: u32) -> (program: String)
    ensures
        program@ == offcpu_program(duration_secs),
{
    let mut program =
        "\ntracepoint:sched:sched_switch\n{\n  if (args->prev_state != 0) {\n    @start[args->prev_pid] = nsecs;\n  }\n  if (@start[args->next_pid]) {\n    @offcpu[kstack] = sum(nsecs - @start[args->next_pid]);\n    delete(@start[args->next_pid]);\n  }\n}\n\ninterval:s:".to_string();
    push_decimal(&mut program, duration_secs as u128);
    program.append("\n{\n  exit();\n}\n");
    program
}

/// The command that measures how long the stacks of another wait.
pub open spec fn bpftrace_command(command: Seq<char>, duration_secs: u32) -> CommandModel {
    CommandModel {
        interactive: true,
        ..CommandModel::of("bpftrace"@).with("-e"@).with(offcpu_program(duration_secs)).with(
            "-c"@,
        ).with(command).with("--unsafe"@)
    }
}

/// The command that measures how long the stacks of another wait.
#[must_use]
pub fn build_bpftrace_offcpu_command(profiled_command: &str, duration_secs: u32) -> (command:
    CommandSpec)
    ensures
        command@ == bpftrace_command(profiled_command@, duration_secs),
{
    CommandSpec::new("bpftrace").arg("-e").arg(offcpu_bpftrace_program(duration_secs).as_str()).arg(
        "-c",
    ).arg(profiled_command).arg("--unsafe").interactive()
}

/// The command that records the scheduling of another.
pub open spec fn sched_record_command(output: Seq<char>, command: Seq<Seq<char>>) -> CommandModel {
    CommandModel {
        interactive: true,
        ..CommandModel::of("perf"@).with("sched"@).with("record"@).with("-o"@).with(output).with(
            "--"@,
        ).with_all(command)
    }
}

/// The command that records the scheduling of another.
#[must_use]
pub fn build_perf_sched_record_command(output: &str, profiled_command: &Vec<String>) -> (command:
    CommandSpec)
    ensures
        command@ == sched_record_command(output@, views(profiled_command@)),
{
    CommandSpec::new("perf").arg("sched").arg("record").arg("-o").arg(output).arg("--").args(
        profiled_command,
    ).interactive()
}

/// The command that shows recorded scheduling.
pub open spec fn sched_timehist_command(input: Seq<char>) -> CommandModel {
    CommandModel::of("perf"@).with("sched"@).with("timehist"@).with("-i"@).with(input)
}

/// The command that shows recorded scheduling.
#[must_use]
pub fn build_perf_sched_timehist_command(input: &str) -> (command: CommandSpec)
    ensures
        command@ == sched_timehist_command(input@),
{
    CommandSpec::new("perf").arg("sched").arg("timehist").arg("-i").arg(input)
}

/// The command that records another by the clock.
#[must_use]
pub fn build_perf_cpu_clock_command(
    frequency: u32,
    callgraph: &str,
    output: &str,
    profiled_command: &Vec<String>,
) -> (command: CommandSpec)
    ensures
        command@ == record_command(
            PerfEvent::CpuClock,
            frequency,
            callgraph@,
            output@,
            TargetModel::Command(views(profiled_command@)),
            0,
        ),
{
    let target = PerfRecordTarget::Command(copy_texts(profiled_command));
    build_perf_record_command(PerfEvent::CpuClock, frequency, callgraph, output, &target, 0)
}

/// Takes a profile of waiting time.
#[derive(Clone, Debug, Eq, PartialEq)]
pub struct OffcpuBackend {
    pub request: ProfileRequest,
}

/// How a request measures waiting time: by the scheduler where it does not say.
pub open spec fn method_of(request: ProfileRequest) -> OffcpuMethod {
    match request.offcpu_method {
        Some(method) => method,
        None => OffcpuMethod::PerfSched,
    }
}

/// What all profiles of waiting time say in their records.
pub open spec fn offcpu_outcome(
    request: ProfileRequest,
    exit_status: Option<i32>,
    sample_event: PerfEvent,
    duration_secs: Option<u32>,
    tools: Seq<ToolModel>,
    raw_profile: Seq<char>,
    folded: bool,
) -> OutcomeModel {
    let root = request.out_dir@;
    let artifacts = standard_artifacts(root).push(raw_profile);
    OutcomeModel {
        backend: BackendName::Offcpu,
        platform: None,
        exit_status,
        sample_event,
        record_target: "command"@,
        duration_secs,
        tools,
        artifacts: if folded {
            artifacts.push(path_in(root, "stacks.folded"@))
        } else {
            artifacts
        },
        diagnostics: seq!["offcpu method: "@ + method_of(request).name()],
    }
}

/// The files that a profile of waiting time leaves at its end.
pub open spec fn offcpu_files(
    root: Seq<char>,
    stdout: Seq<u8>,
    stderr: Seq<u8>,
    summary: Seq<char>,
    folded: Option<Seq<char>>,
) -> Seq<FileModel> {
    let files = seq![
        bytes_in(root, "stdout.log"@, stdout),
        bytes_in(root, "stderr.log"@, stderr),
        text_in(root, "summary.txt"@, summary),
    ];
    (match folded {
        Some(folded) => files.push(text_in(root, "stacks.folded"@, folded)),
        None => files,
    }).push(text_in(root, "tool-errors.log"@, ""@))
}

/// The lines that `bpftrace` printed, folded.
pub open spec fn bpftrace_folded(printed: Seq<char>) -> Seq<char> {
    let lines = collapsed_from(lines_from(printed, 0), 0, None);
    let text = joined_with(lines, "\n"@, lines.len() as int);
    if text.len() == 0 {
        Seq::empty()
    } else {
        text + "\n"@
    }
}

impl OffcpuBackend {
    /// Takes a profile of waiting time.
    #[must_use]
    pub fn new(request: ProfileRequest) -> (backend: OffcpuBackend)
        ensures
            backend.request == request,
    {
        OffcpuBackend { request }
    }

    /// How waiting time is measured.
    #[must_use]
    pub fn method(&self) -> (method: OffcpuMethod)
        ensures
            method == method_of(self.request),
    {
        match self.request.offcpu_method {
            Some(method) => method,
            None => OffcpuMethod::PerfSched,
        }
    }

    /// First the command is run and measured; only commands can be.
    #[must_use]
    pub fn start(&self) -> (step: ProfileStep)
        ensures
            ({
                let root = self.request.out_dir@;
                let command = views(self.request.command@);
                step@ == if attaches(self.request) {
                    StepModel::Fail {
                        files: Seq::empty(),
                        error: "offcpu currently supports command-driven workflows only"@,
                    }
                } else {
                    StepModel::Run {
                        files: seq![text_in(root, "command.txt"@, command_line(command))],
                        command: match method_of(self.request) {
                            OffcpuMethod::PerfSched => sched_record_command(
                                perf_recording(root),
                                command,
                            ),
                            OffcpuMethod::PerfCpuClock => record_command(
                                PerfEvent::CpuClock,
                                self.request.frequency,
                                self.request.call_graph.name(),
                                perf_recording(root),
                                TargetModel::Command(command),
                                0,
                            ),
                            OffcpuMethod::Bpftrace => bpftrace_command(
                                joined_with(command, " "@, command.len() as int),
                                self.request.duration_secs,
                            ),
                        },
                    }
                }
            }),
    {
        if is_attached(&self.request) {
            return ProfileStep::Fail {
                files: no_files(),
                error: "offcpu currently supports command-driven workflows only".to_string(),
            };
        }
        let layout = ArtifactLayout::new(self.request.out_dir.as_str());
        let recording = layout.raw_profile("perf.data");
        let mut files = no_files();
        let text = command_line_of(&self.request.command);
        add_file(&mut files, text_file(layout.command_txt(), text.as_str()));
        assert(views(files@) =~= seq![text_in(layout@, "command.txt"@, text@)]);
        let command = match self.method() {
            OffcpuMethod::PerfSched => build_perf_sched_record_command(
                recording.as_str(),
                &self.request.command,
            ),
            OffcpuMethod::PerfCpuClock => build_perf_cpu_clock_command(
                self.request.frequency,
                self.request.call_graph.text(),
                recording.as_str(),
                &self.request.command,
            ),
            OffcpuMethod::Bpftrace => {
                let command = join_texts(&self.request.command, " ");
                build_bpftrace_offcpu_command(command.as_str(), self.request.duration_secs)
            },
        };
        ProfileStep::Run { files, command }
    }

    /// Then what was measured is shown or folded, if the command succeeded.
    #[must_use]
    pub fn after_record(&self, output: &CommandOutput) -> (step: ProfileStep)
        ensures
            ({
                let root = self.request.out_dir@;
                let method = method_of(self.request);
                let label = match method {
                    OffcpuMethod::PerfSched => "perf sched record"@,
                    OffcpuMethod::PerfCpuClock => "perf record"@,
                    OffcpuMethod::Bpftrace => "bpftrace"@,
                };
                let error = exit_error_text(label, output.status_code, output.stderr@);
                if !output.succeeded() {
                    step@ == (StepModel::Fail {
                        files: failure_files(root, output.stdout@, output.stderr@, error),
                        error,
                    })
                } else {
                    match method {
                        OffcpuMethod::PerfSched => step@ == (StepModel::Run {
                            files: Seq::empty(),
                            command: sched_timehist_command(perf_recording(root)),
                        }),
                        OffcpuMethod::PerfCpuClock => step@ == (StepModel::Fold {
                            files: Seq::empty(),
                            perf_data: perf_recording(root),
                        }),
                        OffcpuMethod::Bpftrace => {
                            let raw = path_in(root, "profile.raw."@ + "bpftrace"@);
                            let folded = bpftrace_folded(utf8_lossy(output.stdout@));
                            step@ == (StepModel::Done {
                                files: seq![(raw, output.stdout@)] + offcpu_files(
                                    root,
                                    output.stdout@,
                                    output.stderr@,
                                    folded_summary_text(folded),
                                    Some(folded),
                                ),
                                outcome: offcpu_outcome(
                                    self.request,
                                    output.status_code,
                                    self.request.event,
                                    Some(self.request.duration_secs),
                                    seq![("bpftrace"@, ToolSource::NixManaged)],
                                    raw,
                                    true,
                                ),
                            })
                        },
                    }
                }
            }),
            output.succeeded() && method_of(self.request) == OffcpuMethod::Bpftrace ==> (
            summary_of_step(step) matches Some(ProfileSummary::OffcpuFolded { method, folded })
                && method == OffcpuMethod::Bpftrace && summarizes(
                folded,
                bpftrace_folded(utf8_lossy(output.stdout@)),
            )),
    {
        let layout = ArtifactLayout::new(self.request.out_dir.as_str());
        if !output.is_success() {
            let label = match self.method() {
                OffcpuMethod::PerfSched => "perf sched record",
                OffcpuMethod::PerfCpuClock => "perf record",
                OffcpuMethod::Bpftrace => "bpftrace",
            };
            let error = exit_error(label, output);
            return fail_with_output(&layout, output, error);
        }
        let recording = layout.raw_profile("perf.data");
        match self.method() {
            OffcpuMethod::PerfSched => ProfileStep::Run {
                files: no_files(),
                command: build_perf_sched_timehist_command(recording.as_str()),
            },
            OffcpuMethod::PerfCpuClock => ProfileStep::Fold {
                files: no_files(),
                perf_data: recording,
            },
            OffcpuMethod::Bpftrace => {
                let printed = text_from_utf8_lossy(output.stdout.as_slice());
                let lines = collapse_offcpu(printed.as_str());
                let mut folded = join_texts(&lines, "\n");
                if folded.as_str().unicode_len() > 0 {
                    folded.append("\n");
                }
                assert(folded@ =~= bpftrace_folded(printed@));
                let raw = layout.raw_profile("bpftrace");
                let mut files = no_files();
                add_file(&mut files, bytes_file(raw.clone(), &output.stdout));
                self.finish_folded(
                    files,
                    output,
                    raw,
                    folded.as_str(),
                    self.request.event,
                    Some(self.request.duration_secs),
                    one_tool(ToolSpec::nix_managed("bpftrace")),
                )
            },
        }
    }

    /// Then the shown scheduling is kept, if it could be shown.
    #[must_use]
    pub fn after_timehist(&self, record: &CommandOutput, output: &CommandOutput) -> (step:
        ProfileStep)
        ensures
            ({
                let root = self.request.out_dir@;
                let error = exit_error_text(
                    "perf sched timehist"@,
                    output.status_code,
                    output.stderr@,
                );
                let shown = utf8_lossy(output.stdout@);
                step@ == if output.succeeded() {
                    StepModel::Done {
                        files: offcpu_files(
                            root,
                            record.stdout@ + output.stdout@,
                            record.stderr@ + output.stderr@,
                            shown,
                            None,
                        ),
                        outcome: offcpu_outcome(
                            self.request,
                            output.status_code,
                            PerfEvent::Default,
                            None,
                            seq![("perf"@, ToolSource::NixManaged)],
                            perf_recording(root),
                            false,
                        ),
                    }
                } else {
                    StepModel::Fail {
                        files: failure_files(root, output.stdout@, output.stderr@, error),
                        error,
                    }
                }
            }),
            output.succeeded() ==> (summary_of_step(
                step,
            ) matches Some(ProfileSummary::PerfSched { method, timehist_raw }) && method
                == OffcpuMethod::PerfSched && timehist_raw@ == utf8_lossy(output.stdout@)),
    {
        let layout = ArtifactLayout::new(self.request.out_dir.as_str());
        if !output.is_success() {
            let error = exit_error("perf sched timehist", output);
            return fail_with_output(&layout, output, error);
        }
        let shown = text_from_utf8_lossy(output.stdout.as_slice());
        let mut stdout = vstd::slice::slice_to_vec(record.stdout.as_slice());
        let mut more = vstd::slice::slice_to_vec(output.stdout.as_slice());
        stdout.append(&mut more);
        let mut stderr = vstd::slice::slice_to_vec(record.stderr.as_slice());
        let mut more = vstd::slice::slice_to_vec(output.stderr.as_slice());
        stderr.append(&mut more);
        let mut files = no_files();
        add_file(&mut files, bytes_file(layout.stdout_log(), &stdout));
        add_file(&mut files, bytes_file(layout.stderr_log(), &stderr));
        add_file(&mut files, text_file(layout.summary_txt(), shown.as_str()));
        add_file(&mut files, text_file(layout.tool_errors_log(), ""));
        assert(views(files@) =~= offcpu_files(
            layout@,
            record.stdout@ + output.stdout@,
            record.stderr@ + output.stderr@,
            shown@,
            None,
        ));
        let outcome = self.outcome(
            output.status_code,
            PerfEvent::Default,
            None,
            one_tool(ToolSpec::nix_managed("perf")),
            layout.raw_profile("perf.data"),
            false,
        );
        ProfileStep::Done {
            files,
            summary: ProfileSummary::PerfSched {
                method: OffcpuMethod::PerfSched,
                timehist_raw: shown,
            },
            outcome,
        }
    }

    /// Then the folded recording is kept.
    #[must_use]
    pub fn after_fold(&self, record: &CommandOutput, folded_stacks: &str) -> (step: ProfileStep)
        ensures
            step@ == (StepModel::Done {
                files: Seq::<FileModel>::empty() + offcpu_files(
                    self.request.out_dir@,
                    record.stdout@,
                    record.stderr@,
                    folded_summary_text(folded_stacks@),
                    Some(folded_stacks@),
                ),
                outcome: offcpu_outcome(
                    self.request,
                    record.status_code,
                    PerfEvent::CpuClock,
                    None,
                    fold_tools(self.request.symbols, self.request.symbolizer),
                    perf_recording(self.request.out_dir@),
                    true,
                ),
            }),
            summary_of_step(step) matches Some(ProfileSummary::OffcpuFolded {
                method,
                folded,
            }) && method == method_of(self.request) && summarizes(folded, folded_stacks@),
    {
        let layout = ArtifactLayout::new(self.request.out_dir.as_str());
        self.finish_folded(
            no_files(),
            record,
            layout.raw_profile("perf.data"),
            folded_stacks,
            PerfEvent::CpuClock,
            None,
            linux_perf_fold_tools(self.request.symbols, self.request.symbolizer),
        )
    }

    fn outcome(
        &self,
        exit_status: Option<i32>,
        sample_event: PerfEvent,
        duration_secs: Option<u32>,
        tools: Vec<ToolSpec>,
        raw_profile: String,
        folded: bool,
    ) -> (outcome: RunOutcome)
        ensures
            outcome@ == offcpu_outcome(
                self.request,
                exit_status,
                sample_event,
                duration_secs,
                views(tools@),
                raw_profile@,
                folded,
            ),
    {
        let layout = ArtifactLayout::new(self.request.out_dir.as_str());
        let mut artifacts = layout.standard_manifest_artifacts();
        add_path(&mut artifacts, raw_profile);
        if folded {
            add_path(&mut artifacts, layout.stacks_folded());
        }
        let diagnostic = joined("offcpu method: ", self.method().summary_label());
        RunOutcome {
            backend: BackendName::Offcpu,
            platform: None,
            exit_status,
            sample_event,
            record_target: "command".to_string(),
            duration_secs,
            tools,
            artifacts,
            diagnostics: one_text(diagnostic.as_str()),
        }
    }

    fn finish_folded(
        &self,
        files: Vec<ArtifactFile>,
        output: &CommandOutput,
        raw_profile: String,
        folded_stacks: &str,
        sample_event: PerfEvent,
        duration_secs: Option<u32>,
        tools: Vec<ToolSpec>,
    ) -> (step: ProfileStep)
        ensures
            step@ == (StepModel::Done {
                files: views(files@) + offcpu_files(
                    self.request.out_dir@,
                    output.stdout@,
                    output.stderr@,
                    folded_summary_text(folded_stacks@),
                    Some(folded_stacks@),
                ),
                outcome: offcpu_outcome(
                    self.request,
                    output.status_code,
                    sample_event,
                    duration_secs,
                    views(tools@),
                    raw_profile@,
                    true,
                ),
            }),
            summary_of_step(step) matches Some(ProfileSummary::OffcpuFolded {
                method,
                folded,
            }) && method == method_of(self.request) && summarizes(folded, folded_stacks@),
    {
        let layout = ArtifactLayout::new(self.request.out_dir.as_str());
        let ghost before = views(files@);
        let mut files = files;
        let summary = summarize_folded_stacks(folded_stacks);
        let summed = render_folded_stack_summary_text(&summary);
        assert(summed@ =~= folded_summary_text(folded_stacks@));
        add_file(&mut files, bytes_file(layout.stdout_log(), &output.stdout));
        add_file(&mut files, bytes_file(layout.stderr_log(), &output.stderr));
        add_file(&mut files, text_file(layout.summary_txt(), summed.as_str()));
        add_file(&mut files, text_file(layout.stacks_folded(), folded_stacks));
        add_file(&mut files, text_file(layout.tool_errors_log(), ""));
        assert(views(files@) =~= before + offcpu_files(
            layout@,
            output.stdout@,
            output.stderr@,
            folded_summary_text(folded_stacks@),
            Some(folded_stacks@),
        ));
        let outcome = self.outcome(
            output.status_code,
            sample_event,
            duration_secs,
            tools,
            raw_profile,
            true,
        );
        ProfileStep::Done {
            files,
            summary: ProfileSummary::OffcpuFolded { method: self.method(), folded: summary },
            outcome,
        }
    }
}

// ---------------------------------------------------------------------------
// Laws
// ---------------------------------------------------------------------------

/// A command whose scheduling is recorded stands at the end of the arguments, behind two dashes
/// and unchanged; one whose waiting is measured is a single argument behind its option.
pub proof fn measured_commands_are_handed_on(
    output: Seq<char>,
    command: Seq<Seq<char>>,
    line: Seq<char>,
    duration_secs: u32,
)
    ensures
        ({
            let alone = sched_record_command(output, Seq::empty());
            &&& alone.args.last() == "--"@
            &&& alone.args.contains(output)
            &&& sched_record_command(output, command).args == alone.args + command
            &&& sched_record_command(output, command).interactive
        }),
        ({
            let measured = bpftrace_command(line, duration_secs);
            &&& measured.args.len() == 5
            &&& measured.args[0] == "-e"@ && measured.args[1] == offcpu_program(duration_secs)
            &&& measured.args[2] == "-c"@ && measured.args[3] == line
            &&& measured.interactive
        }),
{
    let alone = sched_record_command(output, Seq::empty());
    assert(alone.args[3] == output);
    assert(sched_record_command(output, command).args =~= alone.args + command);
}

} // verus!
