//! Profiles of system calls with `strace`.

use vstd::prelude::*;

use crate::process::{CommandModel, CommandSpec};
use crate::text::views;

verus! {

/// The command that traces the system calls of another.
pub open spec fn strace_command(output: Seq<char>, command: Seq<Seq<char>>) -> CommandModel {
    CommandModel::of("strace"@).with("-f"@).with("-ttt"@).with("-T"@).with("-o"@).with(output).with(
        "--"@,
    ).with_all(command)
}

/// The command that traces the system calls of another.
#[must_use]
pub fn build_strace_command(output: &str, profiled_command: &Vec<String>) -> (command: CommandSpec)
    ensures
        command@ == strace_command(output@, views(profiled_command@)),
{
    CommandSpec::new("strace").arg("-f").arg("-ttt").arg("-T").arg("-o").arg(output).arg("--").args(
        profiled_command,
    )
}

// ---------------------------------------------------------------------------
// Laws
// ---------------------------------------------------------------------------

/// A traced command stands at the end of the arguments, behind two dashes and unchanged; the trace
/// goes to the output that is asked for.
pub proof fn traced_commands_stand_at_the_end(output: Seq<char>, command: Seq<Seq<char>>)
    ensures
        ({
            let alone = strace_command(output, Seq::empty()).args;
            &&& alone.last() == "--"@
            &&& exists|i: int|
                0 <= i < alone.len() - 1 && #[trigger] alone[i] == "-o"@ && alone[i + 1] == output
            &&& strace_command(output, command).args == alone + command
        }),
{
    let alone = strace_command(output, Seq::empty()).args;
    assert(alone[3] == "-o"@ && alone[4] == output);
    assert(strace_command(output, command).args =~= alone + command);
}

} // verus!
