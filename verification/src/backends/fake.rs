//! A stand-in where nothing can take a profile.

use vstd::prelude::*;

use crate::artifacts::{standard_artifacts, ArtifactLayout};
use crate::backends::{
    add_file, no_files, one_text, text_file, text_in, FileModel, OutcomeModel, ProfileRequest,
    ProfileStep, ProfileSummary, RunOutcome, StepModel,
};
use crate::manifest::BackendName;
use crate::text::{join_texts, joined_with, views};
use crate::tools::ToolSpec;

verus! {

/// Takes no profile, and leaves the files of one.
#[derive(Clone, Debug, Eq, PartialEq)]
pub struct FakeBackend {
    pub request: ProfileRequest,
}

/// The files that the stand-in leaves.
pub open spec fn fake_files(root: Seq<char>, command: Seq<Seq<char>>) -> Seq<FileModel> {
    seq![
        text_in(root, "stdout.log"@, ""@),
        text_in(root, "stderr.log"@, ""@),
        text_in(root, "command.txt"@, joined_with(command, " "@, command.len() as int)),
        text_in(root, "summary.txt"@, "fake profile complete\n"@),
        text_in(root, "summary.json"@, "{}\n"@),
        text_in(root, "tool-errors.log"@, ""@),
    ]
}

impl FakeBackend {
    /// A stand-in for a profile.
    #[must_use]
    pub fn new(request: ProfileRequest) -> (backend: FakeBackend)
        ensures
            backend.request == request,
    {
        FakeBackend { request }
    }

    /// The only step.
    #[must_use]
    pub fn profile(&self) -> (step: ProfileStep)
        ensures
            step@ == (StepModel::Done {
                files: fake_files(self.request.out_dir@, views(self.request.command@)),
                outcome: OutcomeModel {
                    backend: BackendName::Fake,
                    platform: None,
                    exit_status: Some(0i32),
                    sample_event: self.request.event,
                    record_target: "command"@,
                    duration_secs: None,
                    tools: Seq::empty(),
                    artifacts: standard_artifacts(self.request.out_dir@),
                    diagnostics: seq!["fake backend used"@],
                },
            }),
            crate::backends::summary_of_step(step) == Some(ProfileSummary::Fake),
    {
        let layout = ArtifactLayout::new(self.request.out_dir.as_str());
        let mut files = no_files();
        add_file(&mut files, text_file(layout.stdout_log(), ""));
        add_file(&mut files, text_file(layout.stderr_log(), ""));
        let command = join_texts(&self.request.command, " ");
        add_file(&mut files, text_file(layout.command_txt(), command.as_str()));
        add_file(&mut files, text_file(layout.summary_txt(), "fake profile complete\n"));
        add_file(&mut files, text_file(layout.summary_json(), "{}\n"));
        add_file(&mut files, text_file(layout.tool_errors_log(), ""));
        assert(views(files@) =~= fake_files(
            self.request.out_dir@,
            views(self.request.command@),
        ));
        let tools: Vec<ToolSpec> = Vec::new();
        assert(views(tools@) =~= Seq::empty());
        ProfileStep::Done {
            files,
            summary: ProfileSummary::Fake,
            outcome: RunOutcome {
                backend: BackendName::Fake,
                platform: None,
                exit_status: Some(0),
                sample_event: self.request.event,
                record_target: "command".to_string(),
                duration_secs: None,
                tools,
                artifacts: layout.standard_manifest_artifacts(),
                diagnostics: one_text("fake backend used"),
            },
        }
    }
}

} // verus!
