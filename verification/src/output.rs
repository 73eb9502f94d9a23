//! What a command prints.

use vstd::prelude::*;
use vstd::utf8::encode_utf8;

verus! {

/// What a command prints.
#[derive(Clone, Debug, Eq, PartialEq)]
pub struct CliOutput {
    pub stdout: String,
    pub stderr: String,
}

impl Default for CliOutput {
    fn default() -> (output: CliOutput)
        ensures
            output.stdout@ == Seq::<char>::empty(),
            output.stderr@ == Seq::<char>::empty(),
    {
        CliOutput { stdout: String::new(), stderr: String::new() }
    }
}

/// What became of an attempt to write.
#[derive(Clone, Copy, Debug, Eq, PartialEq, Structural)]
pub enum WriteOutcome {
    Written,
    BrokenPipe,
    Failed,
}

/// Whether printing goes on: a reader that went away is no failure.
#[must_use]
pub fn write_goes_on(outcome: WriteOutcome) -> (goes_on: bool)
    ensures
        goes_on == (outcome != WriteOutcome::Failed),
{
    match outcome {
        WriteOutcome::Failed => false,
        _ => true,
    }
}

/// What is done next for an output: bytes are written to the output or to the errors, or the
/// output is done, well or with the failure of the last write.
#[derive(Clone, Debug, Eq, PartialEq)]
pub enum OutputStep {
    WriteStdout(Vec<u8>),
    WriteStderr(Vec<u8>),
    Done,
    Fail,
}

/// The contents of an [`OutputStep`].
#[verifier::ext_equal]
pub enum OutputStepModel {
    WriteStdout(Seq<u8>),
    WriteStderr(Seq<u8>),
    Done,
    Fail,
}

impl View for OutputStep {
    type V = OutputStepModel;

    open spec fn view(&self) -> OutputStepModel {
        match *self {
            OutputStep::WriteStdout(bytes) => OutputStepModel::WriteStdout(bytes@),
            OutputStep::WriteStderr(bytes) => OutputStepModel::WriteStderr(bytes@),
            OutputStep::Done => OutputStepModel::Done,
            OutputStep::Fail => OutputStepModel::Fail,
        }
    }
}

/// Begins an output: its text for the output is written first.
#[must_use]
pub fn write_cli_output(output: &CliOutput) -> (step: OutputStep)
    ensures
        step@ == OutputStepModel::WriteStdout(encode_utf8(output.stdout@)),
{
    OutputStep::WriteStdout(vstd::slice::slice_to_vec(output.stdout.as_str().as_bytes()))
}

/// Goes on once the output was written: the text for the errors follows, unless the write failed.
#[must_use]
pub fn after_stdout(output: &CliOutput, outcome: WriteOutcome) -> (step: OutputStep)
    ensures
        step@ == if outcome == WriteOutcome::Failed {
            OutputStepModel::Fail
        } else {
            OutputStepModel::WriteStderr(encode_utf8(output.stderr@))
        },
{
    if write_goes_on(outcome) {
        OutputStep::WriteStderr(vstd::slice::slice_to_vec(output.stderr.as_str().as_bytes()))
    } else {
        OutputStep::Fail
    }
}

/// Ends once the errors were written: well, unless the write failed.
#[must_use]
pub fn after_stderr(outcome: WriteOutcome) -> (step: OutputStep)
    ensures
        step@ == if outcome == WriteOutcome::Failed {
            OutputStepModel::Fail
        } else {
            OutputStepModel::Done
        },
{
    if write_goes_on(outcome) {
        OutputStep::Done
    } else {
        OutputStep::Fail
    }
}

} // verus!
