//! Rendering of folded stacks as flame graphs.

use vstd::prelude::*;
use vstd::utf8::encode_utf8;

use crate::process::{exit_error, exit_error_text, CommandModel, CommandOutput, CommandSpec};
use crate::tools::{ToolSource, ToolSpec};
use crate::text::views;

pub mod analysis;

verus! {

/// The command that renders a flame graph with a title from its input.
pub open spec fn flamegraph_command(title: Seq<char>) -> CommandModel {
    CommandModel::of("inferno-flamegraph"@).with("--title"@).with(title).with("-"@)
}

/// The command that renders a flame graph with a title from its input.
#[must_use]
pub fn build_inferno_flamegraph_command(title: &str) -> (command: CommandSpec)
    ensures
        command@ == flamegraph_command(title@),
{
    CommandSpec::new("inferno-flamegraph").arg("--title").arg(title).arg("-")
}

/// A flame graph to render.
#[derive(Clone, Debug, Eq, PartialEq)]
pub struct FlamegraphRequest {
    pub title: String,
    pub folded_stacks: String,
    pub output: String,
}

/// What the renderer told.
#[derive(Clone, Debug, Eq, PartialEq)]
pub struct FlamegraphRenderResult {
    pub stderr: Vec<u8>,
}

/// Renders flame graphs with `inferno-flamegraph`.
#[derive(Clone, Debug, Eq, PartialEq)]
pub struct InfernoFlamegraphRenderer {
    pub request: FlamegraphRequest,
}

impl InfernoFlamegraphRenderer {
    /// A renderer of one flame graph.
    #[must_use]
    pub fn new(request: FlamegraphRequest) -> (renderer: InfernoFlamegraphRenderer)
        ensures
            renderer.request == request,
    {
        InfernoFlamegraphRenderer { request }
    }

    /// The tools that rendering needs.
    #[must_use]
    pub fn tool_specs() -> (tools: Vec<ToolSpec>)
        ensures
            views(tools@) == seq![("inferno-flamegraph"@, ToolSource::NixManaged)],
    {
        let mut tools: Vec<ToolSpec> = Vec::new();
        tools.push(ToolSpec::nix_managed("inferno-flamegraph"));
        assert(views(tools@) =~= seq![("inferno-flamegraph"@, ToolSource::NixManaged)]);
        tools
    }

    /// The command to run: it reads the folded stacks.
    #[must_use]
    pub fn command(&self) -> (command: CommandSpec)
        ensures
            command@ == (CommandModel {
                stdin: Some(encode_utf8(self.request.folded_stacks@)),
                ..flamegraph_command(self.request.title@)
            }),
    {
        let stacks = vstd::slice::slice_to_vec(self.request.folded_stacks.as_str().as_bytes());
        build_inferno_flamegraph_command(self.request.title.as_str()).stdin(stacks)
    }

    /// What the command's output means: what it printed is the flame graph, if it succeeded.
    ///
    /// # Errors
    ///
    /// Returns an error when the renderer failed.
    pub fn render(&self, output: CommandOutput) -> (result: Result<
        (Vec<u8>, FlamegraphRenderResult),
        String,
    >)
        ensures
            match result {
                Ok((svg, told)) => output.succeeded() && svg@ == output.stdout@ && told.stderr@
                    == output.stderr@,
                Err(error) => !output.succeeded() && error@ == exit_error_text(
                    "inferno-flamegraph"@,
                    output.status_code,
                    output.stderr@,
                ),
            },
    {
        if !output.is_success() {
            return Err(exit_error("inferno-flamegraph", &output));
        }
        Ok((output.stdout, FlamegraphRenderResult { stderr: output.stderr }))
    }
}

} // verus!
