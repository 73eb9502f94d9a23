//! Commands and what running them gives.

use vstd::prelude::*;
use vstd::string::StringExecFns;

use crate::text::{push_signed, signed_decimal, text_from_utf8_lossy, utf8_lossy, views};

verus! {

/// A command to run.
#[derive(Clone, Debug, Eq, PartialEq)]
pub struct CommandSpec {
    pub program: String,
    pub args: Vec<String>,
    pub env: Vec<(String, String)>,
    pub stdin: Option<Vec<u8>>,
    pub interactive: bool,
    pub inherit_stderr: bool,
}

/// The contents of a [`CommandSpec`].
#[verifier::ext_equal]
pub struct CommandModel {
    pub program: Seq<char>,
    pub args: Seq<Seq<char>>,
    pub env: Seq<(Seq<char>, Seq<char>)>,
    pub stdin: Option<Seq<u8>>,
    pub interactive: bool,
    pub inherit_stderr: bool,
}

impl View for CommandSpec {
    type V = CommandModel;

    open spec fn view(&self) -> CommandModel {
        CommandModel {
            program: self.program@,
            args: views(self.args@),
            env: views(self.env@),
            stdin: match self.stdin {
                Some(bytes) => Some(bytes@),
                None => None,
            },
            interactive: self.interactive,
            inherit_stderr: self.inherit_stderr,
        }
    }
}

impl CommandModel {
    /// A program without arguments.
    pub open spec fn of(program: Seq<char>) -> CommandModel {
        CommandModel {
            program,
            args: Seq::empty(),
            env: Seq::empty(),
            stdin: None,
            interactive: false,
            inherit_stderr: false,
        }
    }

    /// The command with one more argument.
    pub open spec fn with(self, arg: Seq<char>) -> CommandModel {
        CommandModel { args: self.args.push(arg), ..self }
    }

    /// The command with more arguments.
    pub open spec fn with_all(self, args: Seq<Seq<char>>) -> CommandModel {
        CommandModel { args: self.args + args, ..self }
    }
}

impl CommandSpec {
    /// A program without arguments.
    #[must_use]
    pub fn new(program: &str) -> (command: CommandSpec)
        ensures
            command@ == CommandModel::of(program@),
    {
        let command = CommandSpec {
            program: program.to_string(),
            args: Vec::new(),
            env: Vec::new(),
            stdin: None,
            interactive: false,
            inherit_stderr: false,
        };
        assert(command@ =~= CommandModel::of(program@));
        command
    }

    /// Adds an argument.
    #[must_use]
    pub fn arg(self, arg: &str) -> (command: CommandSpec)
        ensures
            command@ == self@.with(arg@),
    {
        let ghost before = self@;
        let mut command = self;
        command.args.push(arg.to_string());
        assert(command@ =~= before.with(arg@));
        command
    }

    /// Adds arguments.
    #[must_use]
    pub fn args(self, args: &Vec<String>) -> (command: CommandSpec)
        ensures
            command@ == self@.with_all(views(args@)),
    {
        let ghost before = self@;
        let mut command = self;
        let mut i: usize = 0;
        assert(before.args + Seq::<Seq<char>>::empty() =~= before.args);
        assert(views(args@).subrange(0, 0) =~= Seq::empty());
        while i < args.len()
            invariant
                i <= args@.len(),
                command@ == before.with_all(views(args@).subrange(0, i as int)),
            decreases args@.len() - i,
        {
            let ghost now = command@.args;
            command.args.push(args[i].clone());
            i += 1;
            proof {
                assert(views(command.args@) =~= now.push(args@[i - 1]@));
                assert(command@ =~= before.with_all(views(args@).subrange(0, i as int)));
            }
        }
        assert(views(args@).subrange(0, i as int) =~= views(args@));
        command
    }

    /// Sets an environment variable.
    #[must_use]
    pub fn env(self, key: &str, value: &str) -> (command: CommandSpec)
        ensures
            command@ == (CommandModel { env: self@.env.push((key@, value@)), ..self@ }),
    {
        let ghost before = self@;
        let mut command = self;
        command.env.push((key.to_string(), value.to_string()));
        assert(views(command.env@) =~= before.env.push((key@, value@)));
        command
    }

    /// Gives the command its input.
    #[must_use]
    pub fn stdin(self, bytes: Vec<u8>) -> (command: CommandSpec)
        ensures
            command@ == (CommandModel { stdin: Some(bytes@), ..self@ }),
    {
        let mut command = self;
        command.stdin = Some(bytes);
        command
    }

    /// Lets the command use the terminal.
    #[must_use]
    pub fn interactive(self) -> (command: CommandSpec)
        ensures
            command@ == (CommandModel { interactive: true, ..self@ }),
    {
        let mut command = self;
        command.interactive = true;
        command
    }

    /// Lets the command write its errors to the terminal.
    #[must_use]
    pub fn inherit_stderr(self) -> (command: CommandSpec)
        ensures
            command@ == (CommandModel { inherit_stderr: true, ..self@ }),
    {
        let mut command = self;
        command.inherit_stderr = true;
        command
    }

    /// Why a command cannot be run: one that uses the terminal gets no input.
    #[must_use]
    pub fn reject_piped_terminal(&self) -> (error: Option<String>)
        ensures
            (error is Some) == (self.interactive && self.stdin is Some),
            error matches Some(text) ==> text@
                == "interactive commands cannot also supply piped stdin"@,
    {
        if self.interactive && self.stdin.is_some() {
            Some("interactive commands cannot also supply piped stdin".to_string())
        } else {
            None
        }
    }
}

/// What running a command gave.
#[derive(Clone, Debug, Eq, PartialEq)]
pub struct CommandOutput {
    pub status_code: Option<i32>,
    pub stdout: Vec<u8>,
    pub stderr: Vec<u8>,
}

impl CommandOutput {
    /// Whether the command succeeded.
    pub open spec fn succeeded(&self) -> bool {
        self.status_code == Some(0i32)
    }

    /// Tells whether the command succeeded.
    #[must_use]
    pub fn is_success(&self) -> (success: bool)
        ensures
            success == self.succeeded(),
    {
        match self.status_code {
            Some(code) => code == 0,
            None => false,
        }
    }
}

/// How an exit status is shown.
pub open spec fn status_text(status: Option<i32>) -> Seq<char> {
    match status {
        Some(code) => "Some("@ + signed_decimal(code as int) + ")"@,
        None => "None"@,
    }
}

/// How the failure of a command is told.
pub open spec fn exit_error_text(
    label: Seq<char>,
    status: Option<i32>,
    stderr: Seq<u8>,
) -> Seq<char> {
    label + " exited with "@ + status_text(status) + ": "@ + utf8_lossy(stderr)
}

/// Appends an exit status.
pub fn push_status(text: &mut String, status: Option<i32>)
    ensures
        final(text)@ == old(text)@ + status_text(status),
{
    let ghost start = text@;
    match status {
        Some(code) => {
            text.append("Some(");
            push_signed(text, code);
            text.append(")");
        },
        None => text.append("None"),
    }
    assert(text@ =~= start + status_text(status));
}

/// Tells the failure of a command.
#[must_use]
pub fn exit_error(label: &str, output: &CommandOutput) -> (error: String)
    ensures
        error@ == exit_error_text(label@, output.status_code, output.stderr@),
{
    let mut error = label.to_string();
    error.append(" exited with ");
    push_status(&mut error, output.status_code);
    error.append(": ");
    error.append(text_from_utf8_lossy(output.stderr.as_slice()).as_str());
    error
}

} // verus!
