//! What Cargo builds, and the command to profile.

use cargo_metadata::{ArtifactDebuginfo, Message};
use vstd::prelude::*;
use vstd::slice::slice_subrange;
use vstd::string::StringExecFns;

use crate::cargo_cli::targets::{
    kinds_text, quote, quoted, share_kind, shares_kind, show_kinds, KindModel, TargetKind,
};
use crate::cargo_cli::{CargoModel, CargoRunArgs};
use crate::cli::copy_texts;
use crate::process::{CommandModel, CommandOutput, CommandSpec};
use crate::text::{
    chars_of, find_byte, first_from, join_texts, joined, joined_with, outcome, same_text, text_from_utf8_lossy,
    text_view, trim, trimmed, utf8_lossy, views,
};

verus! {

// ---------------------------------------------------------------------------
// The command
// ---------------------------------------------------------------------------

impl CommandModel {
    /// With an option and its value, where there is one.
    pub open spec fn with_value(self, option: Seq<char>, value: Option<Seq<char>>) -> CommandModel {
        match value {
            Some(value) => self.with(option).with(value),
            None => self,
        }
    }

    /// With the target whose unit tests are meant, where one is.
    pub open spec fn with_unit(self, unit: Option<Option<Seq<char>>>, kinds: Seq<KindModel>) ->
        CommandModel {
        match unit {
            Some(Some(name)) => if holds_library(kinds) {
                self.with("--lib"@)
            } else {
                self.with("--bin"@).with(name)
            },
            _ => self,
        }
    }
}

/// Whether a target is a library.
pub open spec fn holds_library(kinds: Seq<KindModel>) -> bool {
    share_kind(kinds, seq![KindModel::Lib, KindModel::RLib])
}

fn is_library(kinds: &Vec<TargetKind>) -> (found: bool)
    ensures
        found == holds_library(views(kinds@)),
{
    let libraries = vec![TargetKind::Lib, TargetKind::RLib];
    assert(views(libraries@) =~= seq![KindModel::Lib, KindModel::RLib]);
    shares_kind(kinds, &libraries)
}

/// The command that builds the target: what is built, with which profile, and which target.
pub open spec fn build_command(args: CargoModel, kinds: Seq<KindModel>) -> CommandModel {
    let cargo = CommandModel::of("cargo"@);
    let what = if !args.dev && (args.bench is Some || args.unit_bench is Some) {
        cargo.with("bench"@).with("--no-run"@)
    } else if args.unit_test is Some {
        cargo.with("test"@).with("--no-run"@)
    } else {
        cargo.with("build"@)
    };
    let profiled = match args.profile {
        Some(profile) => what.with("--profile"@).with(profile),
        None => if !args.dev && args.bench is None && args.unit_bench is None {
            what.with("--release"@)
        } else {
            what
        },
    };
    let named = profiled.with_value("--package"@, args.package).with_value(
        "--bin"@,
        args.bin,
    ).with_value("--target"@, args.target).with_value("--example"@, args.example).with_value(
        "--test"@,
        args.test,
    ).with_value("--bench"@, args.bench);
    let located = named.with_unit(args.unit_test, kinds).with_unit(
        args.unit_bench,
        kinds,
    ).with_value("--manifest-path"@, args.manifest_path).with_value("--features"@, args.features);
    let featured = if args.no_default_features {
        located.with("--no-default-features"@)
    } else {
        located
    };
    CommandModel {
        inherit_stderr: true,
        ..featured.with("--message-format=json-render-diagnostics"@)
    }
}

fn add_value(command: CommandSpec, option: &str, value: &Option<String>) -> (result: CommandSpec)
    ensures
        result@ == command@.with_value(option@, text_view(*value)),
{
    match value {
        Some(value) => command.arg(option).arg(value.as_str()),
        None => command,
    }
}

fn add_unit(command: CommandSpec, unit: &Option<Option<String>>, kinds: &Vec<TargetKind>) -> (result:
    CommandSpec)
    ensures
        result@ == command@.with_unit(crate::cargo_cli::inner_view(*unit), views(kinds@)),
{
    match unit {
        Some(Some(name)) => if is_library(kinds) {
            command.arg("--lib")
        } else {
            command.arg("--bin").arg(name.as_str())
        },
        _ => command,
    }
}

/// The command that builds the target, which is of some kinds where it was looked for.
#[must_use]
pub fn cargo_build_command(args: &CargoRunArgs, kinds: &Vec<TargetKind>) -> (command: CommandSpec)
    ensures
        command@ == build_command(args@, views(kinds@)),
{
    let cargo = CommandSpec::new("cargo");
    let what = if !args.dev && (args.bench.is_some() || args.unit_bench.is_some()) {
        cargo.arg("bench").arg("--no-run")
    } else if args.unit_test.is_some() {
        cargo.arg("test").arg("--no-run")
    } else {
        cargo.arg("build")
    };
    let profiled = match &args.profile {
        Some(profile) => what.arg("--profile").arg(profile.as_str()),
        None => if !args.dev && args.bench.is_none() && args.unit_bench.is_none() {
            what.arg("--release")
        } else {
            what
        },
    };
    let command = add_value(profiled, "--package", &args.package);
    let command = add_value(command, "--bin", &args.bin);
    let command = add_value(command, "--target", &args.target);
    let command = add_value(command, "--example", &args.example);
    let command = add_value(command, "--test", &args.test);
    let command = add_value(command, "--bench", &args.bench);
    let command = add_unit(command, &args.unit_test, kinds);
    let command = add_unit(command, &args.unit_bench, kinds);
    let command = add_value(command, "--manifest-path", &args.manifest_path);
    let command = add_value(command, "--features", &args.features);
    let command = if args.no_default_features {
        command.arg("--no-default-features")
    } else {
        command
    };
    command.arg("--message-format=json-render-diagnostics").inherit_stderr()
}

// ---------------------------------------------------------------------------
// What was built
// ---------------------------------------------------------------------------

/// A built target as Cargo reports it, with its kinds by name.
#[derive(Clone, Debug, Eq, PartialEq)]
pub struct ReportedArtifact {
    pub name: String,
    pub kinds: Vec<String>,
    pub executable: Option<String>,
    pub lacks_debuginfo: bool,
}

/// A message of Cargo: a built target, something else, or why it could not be read.
#[derive(Clone, Debug, Eq, PartialEq)]
pub enum CargoMessage {
    Artifact(ReportedArtifact),
    Other,
    Failed(String),
}

/// The contents of a [`CargoMessage`].
#[verifier::ext_equal]
pub enum MessageModel {
    Artifact {
        name: Seq<char>,
        kinds: Seq<Seq<char>>,
        executable: Option<Seq<char>>,
        lacks_debuginfo: bool,
    },
    Other,
    Failed(Seq<char>),
}

impl View for CargoMessage {
    type V = MessageModel;

    open spec fn view(&self) -> MessageModel {
        match *self {
            CargoMessage::Artifact(artifact) => MessageModel::Artifact {
                name: artifact.name@,
                kinds: views(artifact.kinds@),
                executable: text_view(artifact.executable),
                lacks_debuginfo: artifact.lacks_debuginfo,
            },
            CargoMessage::Other => MessageModel::Other,
            CargoMessage::Failed(error) => MessageModel::Failed(error@),
        }
    }
}

/// How deep brackets of JSON are nested: how many are open, whether a string is open and its next
/// character is escaped, and how many were open at most.
#[verifier::ext_equal]
pub struct Nesting {
    pub open: int,
    pub in_string: bool,
    pub escaped: bool,
    pub deepest: int,
}

impl Nesting {
    /// Behind one more byte. A line begins anew.
    pub open spec fn behind(self, byte: u8) -> Nesting {
        if byte == 10 {
            Nesting { open: 0, in_string: false, escaped: false, ..self }
        } else if self.in_string {
            Nesting {
                in_string: self.escaped || byte != 34,
                escaped: !self.escaped && byte == 92,
                ..self
            }
        } else if byte == 34 {
            Nesting { in_string: true, ..self }
        } else if byte == 91 || byte == 123 {
            Nesting {
                open: self.open + 1,
                deepest: if self.open + 1 > self.deepest {
                    self.open + 1
                } else {
                    self.deepest
                },
                ..self
            }
        } else if (byte == 93 || byte == 125) && self.open > 0 {
            Nesting { open: self.open - 1, ..self }
        } else {
            self
        }
    }
}

/// How deep brackets are nested in the lines of the first `count` bytes.
pub open spec fn nesting(bytes: Seq<u8>, count: int) -> Nesting
    decreases count,
{
    if count <= 0 {
        Nesting { open: 0, in_string: false, escaped: false, deepest: 0 }
    } else {
        nesting(bytes, count - 1).behind(bytes[count - 1])
    }
}

/// How many brackets may be open in a line, which is read by recursion. Those of Cargo's own
/// messages are few.
pub const MAX_NESTING: usize = 512;

/// Whether a line can be read by recursion.
pub open spec fn is_shallow(bytes: Seq<u8>) -> bool {
    nesting(bytes, bytes.len() as int).deepest <= MAX_NESTING
}

fn check_nesting(bytes: &[u8]) -> (shallow: bool)
    ensures
        shallow == is_shallow(bytes@),
{
    let mut open: usize = 0;
    let mut in_string = false;
    let mut escaped = false;
    let mut deepest: usize = 0;
    let mut i: usize = 0;
    while i < bytes.len()
        invariant
            i <= bytes@.len(),
            open <= i,
            nesting(bytes@, i as int) == (Nesting {
                open: open as int,
                in_string,
                escaped,
                deepest: deepest as int,
            }),
        decreases bytes@.len() - i,
    {
        let byte: u8 = bytes[i];
        if byte == 10 {
            open = 0;
            in_string = false;
            escaped = false;
        } else if in_string {
            in_string = escaped || byte != 34;
            escaped = !escaped && byte == 92;
        } else if byte == 34 {
            in_string = true;
        } else if byte == 91 || byte == 123 {
            open += 1;
            if open > deepest {
                deepest = open;
            }
        } else if (byte == 93 || byte == 125) && open > 0 {
            open -= 1;
        }
        i += 1;
    }
    deepest <= MAX_NESTING
}

/// How long the first line is, with the byte that ends it.
pub open spec fn first_line(bytes: Seq<u8>) -> int {
    let end = first_from(bytes, 10u8, 0);
    if end < bytes.len() {
        end + 1
    } else {
        end
    }
}

/// Whether all lines can be read by recursion.
pub open spec fn lines_are_shallow(bytes: Seq<u8>) -> bool
    decreases bytes.len(),
{
    if bytes.len() == 0 {
        true
    } else {
        proof {
            first_line_is_inside(bytes);
        }
        let end = first_line(bytes);
        is_shallow(bytes.subrange(0, end)) && lines_are_shallow(
            bytes.subrange(end, bytes.len() as int),
        )
    }
}

/// A line with blanks in place of the brackets that open.
pub open spec fn blanked(line: Seq<u8>) -> Seq<u8> {
    Seq::new(
        line.len(),
        |i: int|
            if line[i] == 91 || line[i] == 123 {
                32u8
            } else {
                line[i]
            },
    )
}

/// What is read of lines: those that are nested too deep for a message are text without brackets.
pub open spec fn readable(bytes: Seq<u8>) -> Seq<u8>
    decreases bytes.len(),
{
    if bytes.len() == 0 {
        Seq::empty()
    } else {
        proof {
            first_line_is_inside(bytes);
        }
        let end = first_line(bytes);
        let line = bytes.subrange(0, end);
        (if is_shallow(line) {
            line
        } else {
            blanked(line)
        }) + readable(bytes.subrange(end, bytes.len() as int))
    }
}

proof fn newline_is_found(bytes: Seq<u8>, from: int)
    requires
        0 <= from <= bytes.len(),
    ensures
        from <= first_from(bytes, 10u8, from) <= bytes.len(),
        forall|i: int| from <= i < first_from(bytes, 10u8, from) ==> #[trigger] bytes[i] != 10,
        first_from(bytes, 10u8, from) < bytes.len() ==> bytes[first_from(bytes, 10u8, from)] == 10,
    decreases bytes.len() - from,
{
    if from < bytes.len() && bytes[from] != 10 {
        newline_is_found(bytes, from + 1);
    }
}

/// The first line of bytes has at least one byte.
pub proof fn first_line_is_inside(bytes: Seq<u8>)
    requires
        bytes.len() > 0,
    ensures
        0 < first_line(bytes) <= bytes.len(),
{
    newline_is_found(bytes, 0);
}

/// Lines that are not nested too deep are read as they are.
pub proof fn shallow_lines_are_read_as_they_are(bytes: Seq<u8>)
    requires
        lines_are_shallow(bytes),
    ensures
        readable(bytes) == bytes,
    decreases bytes.len(),
{
    if bytes.len() > 0 {
        first_line_is_inside(bytes);
        let end = first_line(bytes);
        shallow_lines_are_read_as_they_are(bytes.subrange(end, bytes.len() as int));
        assert(bytes.subrange(0, end) + bytes.subrange(end, bytes.len() as int) =~= bytes);
    }
}

proof fn blanked_is_flat(line: Seq<u8>, count: int)
    requires
        count <= line.len(),
    ensures
        nesting(blanked(line), count).deepest == 0,
    decreases count,
{
    if count > 0 {
        blanked_is_flat(line, count - 1);
    }
}

/// What is read of lines is never nested too deep.
pub proof fn readable_lines_are_shallow(bytes: Seq<u8>)
    ensures
        lines_are_shallow(readable(bytes)),
    decreases bytes.len(),
{
    if bytes.len() > 0 {
        newline_is_found(bytes, 0);
        let end = first_line(bytes);
        let line = bytes.subrange(0, end);
        let rest = bytes.subrange(end, bytes.len() as int);
        let shown = if is_shallow(line) {
            line
        } else {
            blanked(line)
        };
        let whole = readable(bytes);
        readable_lines_are_shallow(rest);
        blanked_is_flat(line, line.len() as int);
        assert(whole == shown + readable(rest));
        newline_is_found(whole, 0);
        let found = first_from(whole, 10u8, 0);
        let newline = first_from(bytes, 10u8, 0);
        assert forall|i: int| 0 <= i < newline implies #[trigger] whole[i] != 10 by {
            assert(line[i] == bytes[i]);
            assert(shown[i] != 10);
        }
        if newline < bytes.len() {
            assert(line[newline] == 10);
            assert(whole[newline] == 10);
        }
        assert(found == newline);
        assert(whole.subrange(0, end) =~= shown);
        assert(whole.subrange(end, whole.len() as int) =~= readable(rest));
    }
}

/// Puts blanks in place of the brackets of lines that are nested too deep.
fn make_readable(bytes: &[u8]) -> (text: Vec<u8>)
    ensures
        text@ == readable(bytes@),
{
    let mut text: Vec<u8> = Vec::with_capacity(bytes.len());
    let mut from: usize = 0;
    assert(bytes@.subrange(0, bytes@.len() as int) =~= bytes@);
    assert(text@ + readable(bytes@) =~= readable(bytes@));
    while from < bytes.len()
        invariant
            from <= bytes@.len(),
            readable(bytes@) == text@ + readable(bytes@.subrange(from as int, bytes@.len() as int)),
        decreases bytes@.len() - from,
    {
        let rest = slice_subrange(bytes, from, bytes.len());
        let newline: usize = find_byte(rest, 10, 0);
        let end: usize = if newline < rest.len() {
            newline + 1
        } else {
            newline
        };
        proof {
            first_line_is_inside(rest@);
        }
        let line = slice_subrange(rest, 0, end);
        let shallow = check_nesting(line);
        let ghost before = text@;
        let ghost shown = if shallow {
            line@
        } else {
            blanked(line@)
        };
        let mut i: usize = 0;
        while i < line.len()
            invariant
                i <= line@.len(),
                shown == if shallow {
                    line@
                } else {
                    blanked(line@)
                },
                text@ == before + shown.subrange(0, i as int),
            decreases line@.len() - i,
        {
            let byte: u8 = line[i];
            if !shallow && (byte == 91 || byte == 123) {
                text.push(32);
            } else {
                text.push(byte);
            }
            i += 1;
            assert(text@ =~= before + shown.subrange(0, i as int));
        }
        from += end;
        proof {
            assert(shown.subrange(0, i as int) =~= shown);
            let left = bytes@.subrange(from as int, bytes@.len() as int);
            assert(rest@.subrange(end as int, rest@.len() as int) =~= left);
            assert(before + (shown + readable(left)) =~= text@ + readable(left));
        }
    }
    assert(text@ + Seq::<u8>::empty() =~= text@);
    text
}

/// The messages that `cargo_metadata` reads in what Cargo wrote.
pub uninterp spec fn cargo_messages(bytes: Seq<u8>) -> Seq<MessageModel>;

/// Calls `cargo_metadata::Message::parse_stream` and takes every message that it reads, one for
/// each line, with what is needed of a built target. How a line is read is not spelled out, only
/// that the messages are a function of the bytes. A line is read by recursion without a limit, so
/// the brackets of a line must not be nested too deep for the machine's stack.
#[verifier::external_body]
fn read_messages(bytes: &[u8]) -> (messages: Vec<CargoMessage>)
    requires
        lines_are_shallow(bytes@),
    ensures
        views(messages@) == cargo_messages(bytes@),
{
    Message::parse_stream(bytes).map(
        |message| match message {
            Ok(Message::CompilerArtifact(built)) => CargoMessage::Artifact(ReportedArtifact {
                name: built.target.name,
                kinds: built.target.kind.iter().map(ToString::to_string).collect(),
                executable: built.executable.map(|path| path.into_string()),
                lacks_debuginfo: matches!(built.profile.debuginfo, ArtifactDebuginfo::None),
            }),
            Ok(_) => CargoMessage::Other,
            Err(error) => CargoMessage::Failed(error.to_string()),
        },
    ).collect()
}

/// A built target.
#[derive(Clone, Debug, Eq, PartialEq)]
pub struct BuildArtifact {
    pub name: String,
    pub kind: Vec<TargetKind>,
    pub executable: Option<String>,
    pub lacks_debuginfo: bool,
}

/// The contents of a [`BuildArtifact`].
#[verifier::ext_equal]
pub struct ArtifactModel {
    pub name: Seq<char>,
    pub kind: Seq<KindModel>,
    pub executable: Option<Seq<char>>,
    pub lacks_debuginfo: bool,
}

impl View for BuildArtifact {
    type V = ArtifactModel;

    open spec fn view(&self) -> ArtifactModel {
        ArtifactModel {
            name: self.name@,
            kind: views(self.kind@),
            executable: text_view(self.executable),
            lacks_debuginfo: self.lacks_debuginfo,
        }
    }
}

/// The kinds of some names.
pub open spec fn kinds_named(names: Seq<Seq<char>>) -> Seq<KindModel> {
    names.map_values(|name: Seq<char>| crate::cargo_cli::targets::kind_named(name))
}

/// The built targets among the first `count` messages, up to one that could not be read.
pub open spec fn artifacts_in(messages: Seq<MessageModel>, count: int) -> Result<
    Seq<ArtifactModel>,
    Seq<char>,
>
    decreases count,
{
    if count <= 0 {
        Ok(Seq::empty())
    } else {
        match artifacts_in(messages, count - 1) {
            Err(error) => Err(error),
            Ok(artifacts) => match messages[count - 1] {
                MessageModel::Artifact { name, kinds, executable, lacks_debuginfo } => Ok(
                    artifacts.push(
                        ArtifactModel {
                            name,
                            kind: kinds_named(kinds),
                            executable,
                            lacks_debuginfo,
                        },
                    ),
                ),
                MessageModel::Other => Ok(artifacts),
                MessageModel::Failed(error) => Err(
                    "failed to parse cargo build output: "@ + error,
                ),
            },
        }
    }
}

/// What a run of Cargo built, or why it failed.
pub open spec fn built_artifacts(output: CommandOutput) -> Result<Seq<ArtifactModel>, Seq<char>> {
    if output.succeeded() {
        let messages = cargo_messages(readable(output.stdout@));
        artifacts_in(messages, messages.len() as int)
    } else {
        let stderr = utf8_lossy(output.stderr@);
        if trimmed(stderr).len() == 0 {
            Err("cargo build failed"@)
        } else {
            Err("cargo build failed: "@ + stderr)
        }
    }
}

fn kinds_of_names(names: &Vec<String>) -> (kinds: Vec<TargetKind>)
    ensures
        views(kinds@) == kinds_named(views(names@)),
{
    let mut kinds: Vec<TargetKind> = Vec::with_capacity(names.len());
    let mut i: usize = 0;
    while i < names.len()
        invariant
            i <= names@.len(),
            kinds@.len() == i,
            forall|j: int|
                0 <= j < i ==> (#[trigger] kinds@[j])@ == crate::cargo_cli::targets::kind_named(
                    names@[j]@,
                ),
        decreases names@.len() - i,
    {
        kinds.push(TargetKind::named(names[i].as_str()));
        i += 1;
    }
    assert(views(kinds@) =~= kinds_named(views(names@)));
    kinds
}

proof fn failure_stays(messages: Seq<MessageModel>, count: int, total: int)
    requires
        count <= total,
        artifacts_in(messages, count) is Err,
    ensures
        artifacts_in(messages, total) == artifacts_in(messages, count),
    decreases total - count,
{
    if count < total {
        failure_stays(messages, count, total - 1);
    }
}

/// The built targets among messages, up to one that could not be read.
pub fn artifacts_of_messages(messages: &Vec<CargoMessage>) -> (artifacts: Result<
    Vec<BuildArtifact>,
    String,
>)
    ensures
        match artifacts {
            Ok(artifacts) => artifacts_in(views(messages@), messages@.len() as int) == Ok::<
                Seq<ArtifactModel>,
                Seq<char>,
            >(views(artifacts@)),
            Err(error) => artifacts_in(views(messages@), messages@.len() as int) == Err::<
                Seq<ArtifactModel>,
                Seq<char>,
            >(error@),
        },
{
    let ghost all = views(messages@);
    let mut artifacts: Vec<BuildArtifact> = Vec::new();
    let mut i: usize = 0;
    assert(views(artifacts@) =~= Seq::empty());
    while i < messages.len()
        invariant
            i <= messages@.len(),
            all == views(messages@),
            artifacts_in(all, i as int) == Ok::<Seq<ArtifactModel>, Seq<char>>(
                views(artifacts@),
            ),
        decreases messages@.len() - i,
    {
        assert(all[i as int] == messages@[i as int]@);
        match &messages[i] {
            CargoMessage::Artifact(built) => {
                let ghost before = views(artifacts@);
                let artifact = BuildArtifact {
                    name: built.name.clone(),
                    kind: kinds_of_names(&built.kinds),
                    executable: crate::cli::copy_text(&built.executable),
                    lacks_debuginfo: built.lacks_debuginfo,
                };
                artifacts.push(artifact);
                assert(views(artifacts@) =~= before.push(artifact@));
            },
            CargoMessage::Other => {},
            CargoMessage::Failed(error) => {
                proof {
                    failure_stays(all, i + 1, all.len() as int);
                }
                return Err(joined("failed to parse cargo build output: ", error.as_str()));
            },
        }
        i += 1;
    }
    Ok(artifacts)
}

/// What a run of Cargo built, or why it failed.
pub fn build_artifacts(output: &CommandOutput) -> (artifacts: Result<Vec<BuildArtifact>, String>)
    ensures
        match artifacts {
            Ok(artifacts) => built_artifacts(*output) == Ok::<Seq<ArtifactModel>, Seq<char>>(
                views(artifacts@),
            ),
            Err(error) => built_artifacts(*output) == Err::<Seq<ArtifactModel>, Seq<char>>(
                error@,
            ),
        },
{
    if !output.is_success() {
        let stderr = text_from_utf8_lossy(output.stderr.as_slice());
        let chars = chars_of(stderr.as_str());
        if trim(chars.as_slice()).len() == 0 {
            return Err("cargo build failed".to_string());
        }
        return Err(joined("cargo build failed: ", stderr.as_str()));
    }
    let text = make_readable(output.stdout.as_slice());
    proof {
        readable_lines_are_shallow(output.stdout@);
    }
    let messages = read_messages(text.as_slice());
    artifacts_of_messages(&messages)
}

// ---------------------------------------------------------------------------
// The command to profile
// ---------------------------------------------------------------------------

/// The command to profile, and a warning.
#[derive(Clone, Debug, Eq, PartialEq)]
pub struct Workload {
    pub command: Vec<String>,
    pub warning: Option<String>,
}

/// The contents of a [`Workload`].
#[verifier::ext_equal]
pub struct WorkloadModel {
    pub command: Seq<Seq<char>>,
    pub warning: Option<Seq<char>>,
}

impl View for Workload {
    type V = WorkloadModel;

    open spec fn view(&self) -> WorkloadModel {
        WorkloadModel { command: views(self.command@), warning: text_view(self.warning) }
    }
}

/// The kinds and the name of the target that arguments name.
pub open spec fn named_target(args: CargoModel) -> Option<(Seq<KindModel>, Seq<char>)> {
    let unit = seq![KindModel::Lib, KindModel::RLib, KindModel::Bin];
    if args.bin is Some {
        Some((seq![KindModel::Bin], args.bin->0))
    } else if args.example is Some {
        Some((seq![KindModel::Example], args.example->0))
    } else if args.test is Some {
        Some((seq![KindModel::Test], args.test->0))
    } else if args.bench is Some {
        Some((seq![KindModel::Bench], args.bench->0))
    } else {
        match (args.unit_test, args.unit_bench) {
            (Some(Some(name)), _) => Some((unit, name)),
            (_, Some(Some(name))) => Some((unit, name)),
            _ => None,
        }
    }
}

/// Whether the target is a unit benchmark, which has to be told so.
pub open spec fn runs_unit_bench(args: CargoModel) -> bool {
    args.bin is None && args.example is None && args.test is None && args.bench is None && !(
    args.unit_test matches Some(Some(_))) && (args.unit_bench matches Some(Some(_)))
}

/// Whether an artifact is the executable of a target.
pub open spec fn runs_target(
    artifact: ArtifactModel,
    kinds: Seq<KindModel>,
    name: Seq<char>,
) -> bool {
    artifact.executable is Some && artifact.name == name && share_kind(artifact.kind, kinds)
}

/// The first artifact from an index on that is the executable of a target.
pub open spec fn executable_from(
    artifacts: Seq<ArtifactModel>,
    kinds: Seq<KindModel>,
    name: Seq<char>,
    from: int,
) -> Option<ArtifactModel>
    decreases artifacts.len() - from,
{
    if from < 0 || from >= artifacts.len() {
        None
    } else if runs_target(artifacts[from], kinds, name) {
        Some(artifacts[from])
    } else {
        executable_from(artifacts, kinds, name, from + 1)
    }
}

/// How the kinds and the name of a target are shown.
pub open spec fn pair_text(kinds: Seq<KindModel>, name: Seq<char>) -> Seq<char> {
    "("@ + kinds_text(kinds) + ", "@ + quoted(name) + ")"@
}

/// How artifacts are shown.
pub open spec fn artifact_texts(artifacts: Seq<ArtifactModel>) -> Seq<Seq<char>> {
    artifacts.map_values(|artifact: ArtifactModel| pair_text(artifact.kind, artifact.name))
}

/// The warning that an executable has no names: the profile to change, in two ways.
pub open spec fn missing_names(profile: Seq<char>, variable: Seq<char>) -> Seq<char> {
    "\nWARNING: profiling without debuginfo. Enable symbol information by adding the following lines to Cargo.toml:\n\n[profile."@
        + profile + "]\ndebug = true\n\nOr set this environment variable:\n\nCARGO_PROFILE_"@
        + variable + "_DEBUG=true\n\n"@
}

/// The warning for an artifact, if one is due.
pub open spec fn warning_of(args: CargoModel, artifact: ArtifactModel) -> Option<Seq<char>> {
    if args.dev || !artifact.lacks_debuginfo {
        None
    } else if args.example is Some || args.bin is Some || (args.unit_test matches Some(
        Some(_),
    )) {
        Some(missing_names("release"@, "RELEASE"@))
    } else {
        Some(missing_names("bench"@, "BENCH"@))
    }
}

/// The command that runs the target of arguments, or why there is none.
pub open spec fn workload_of(args: CargoModel, artifacts: Seq<ArtifactModel>) -> Result<
    WorkloadModel,
    Seq<char>,
> {
    if forall|i: int|
        0 <= i < artifacts.len() ==> (#[trigger] artifacts[i]).executable is None {
        Err("build artifacts do not contain any executable to profile"@)
    } else {
        match named_target(args) {
            None => Err("no target for profiling"@),
            Some((kinds, name)) => match executable_from(artifacts, kinds, name, 0) {
                None => Err(
                    "could not find desired target "@ + pair_text(kinds, name)
                        + " in the targets for this crate: ["@ + joined_with(
                        artifact_texts(artifacts),
                        ", "@,
                        artifacts.len() as int,
                    ) + "]"@,
                ),
                Some(artifact) => Ok(
                    WorkloadModel {
                        command: seq![artifact.executable->0] + args.trailing_arguments + (
                        if runs_unit_bench(args) {
                            seq!["--bench"@]
                        } else {
                            Seq::empty()
                        }),
                        warning: warning_of(args, artifact),
                    },
                ),
            },
        }
    }
}

fn show_pair(kinds: &Vec<TargetKind>, name: &str) -> (text: String)
    ensures
        text@ == pair_text(views(kinds@), name@),
{
    let mut text = "(".to_string();
    text.append(show_kinds(kinds).as_str());
    text.append(", ");
    text.append(quote(name).as_str());
    text.append(")");
    text
}

fn missing_target_error(
    kinds: &Vec<TargetKind>,
    name: &str,
    artifacts: &Vec<BuildArtifact>,
) -> (error: String)
    ensures
        error@ == "could not find desired target "@ + pair_text(views(kinds@), name@)
            + " in the targets for this crate: ["@ + joined_with(
            artifact_texts(views(artifacts@)),
            ", "@,
            artifacts@.len() as int,
        ) + "]"@,
{
    let mut texts: Vec<String> = Vec::with_capacity(artifacts.len());
    let mut i: usize = 0;
    while i < artifacts.len()
        invariant
            i <= artifacts@.len(),
            texts@.len() == i,
            forall|j: int|
                0 <= j < i ==> (#[trigger] texts@[j])@ == pair_text(
                    artifacts@[j]@.kind,
                    artifacts@[j]@.name,
                ),
        decreases artifacts@.len() - i,
    {
        texts.push(show_pair(&artifacts[i].kind, artifacts[i].name.as_str()));
        i += 1;
    }
    assert(views(texts@) =~= artifact_texts(views(artifacts@)));
    let mut error = "could not find desired target ".to_string();
    error.append(show_pair(kinds, name).as_str());
    error.append(" in the targets for this crate: [");
    error.append(join_texts(&texts, ", ").as_str());
    error.append("]");
    error
}

fn missing_names_warning(profile: &str, variable: &str) -> (warning: String)
    ensures
        warning@ == missing_names(profile@, variable@),
{
    let mut warning =
        "\nWARNING: profiling without debuginfo. Enable symbol information by adding the following lines to Cargo.toml:\n\n[profile.".to_string();
    warning.append(profile);
    warning.append(
        "]\ndebug = true\n\nOr set this environment variable:\n\nCARGO_PROFILE_",
    );
    warning.append(variable);
    warning.append("_DEBUG=true\n\n");
    warning
}

fn artifact_warning(args: &CargoRunArgs, artifact: &BuildArtifact) -> (warning: Option<String>)
    ensures
        text_view(warning) == warning_of(args@, artifact@),
{
    if args.dev || !artifact.lacks_debuginfo {
        return None;
    }
    let tested = match &args.unit_test {
        Some(Some(_)) => true,
        _ => false,
    };
    if args.example.is_some() || args.bin.is_some() || tested {
        Some(missing_names_warning("release", "RELEASE"))
    } else {
        Some(missing_names_warning("bench", "BENCH"))
    }
}

/// A target that arguments name.
struct NamedTarget {
    kinds: Vec<TargetKind>,
    name: String,
    unit_bench: bool,
}

fn find_named_target(args: &CargoRunArgs) -> (found: Option<NamedTarget>)
    ensures
        match found {
            Some(target) => named_target(args@) == Some((views(target.kinds@), target.name@))
                && target.unit_bench == runs_unit_bench(args@),
            None => named_target(args@) is None,
        },
{
    if let Some(name) = &args.bin {
        let kinds = vec![TargetKind::Bin];
        assert(views(kinds@) =~= seq![KindModel::Bin]);
        return Some(NamedTarget { kinds, name: name.clone(), unit_bench: false });
    }
    if let Some(name) = &args.example {
        let kinds = vec![TargetKind::Example];
        assert(views(kinds@) =~= seq![KindModel::Example]);
        return Some(NamedTarget { kinds, name: name.clone(), unit_bench: false });
    }
    if let Some(name) = &args.test {
        let kinds = vec![TargetKind::Test];
        assert(views(kinds@) =~= seq![KindModel::Test]);
        return Some(NamedTarget { kinds, name: name.clone(), unit_bench: false });
    }
    if let Some(name) = &args.bench {
        let kinds = vec![TargetKind::Bench];
        assert(views(kinds@) =~= seq![KindModel::Bench]);
        return Some(NamedTarget { kinds, name: name.clone(), unit_bench: false });
    }
    let kinds = vec![TargetKind::Lib, TargetKind::RLib, TargetKind::Bin];
    assert(views(kinds@) =~= seq![KindModel::Lib, KindModel::RLib, KindModel::Bin]);
    if let Some(Some(name)) = &args.unit_test {
        return Some(NamedTarget { kinds, name: name.clone(), unit_bench: false });
    }
    if let Some(Some(name)) = &args.unit_bench {
        return Some(NamedTarget { kinds, name: name.clone(), unit_bench: true });
    }
    None
}

fn find_executable(artifacts: &Vec<BuildArtifact>, kinds: &Vec<TargetKind>, name: &str) -> (found:
    Option<usize>)
    ensures
        match found {
            Some(at) => at < artifacts@.len() && executable_from(
                views(artifacts@),
                views(kinds@),
                name@,
                0,
            ) == Some(artifacts@[at as int]@),
            None => executable_from(views(artifacts@), views(kinds@), name@, 0) is None,
        },
{
    let ghost all = views(artifacts@);
    let mut i: usize = 0;
    while i < artifacts.len()
        invariant
            i <= artifacts@.len(),
            all == views(artifacts@),
            executable_from(all, views(kinds@), name@, 0) == executable_from(
                all,
                views(kinds@),
                name@,
                i as int,
            ),
        decreases artifacts@.len() - i,
    {
        assert(all[i as int] == artifacts@[i as int]@);
        if artifacts[i].executable.is_some() && same_text(artifacts[i].name.as_str(), name)
            && shares_kind(&artifacts[i].kind, kinds) {
            return Some(i);
        }
        i += 1;
    }
    None
}

fn has_executable(artifacts: &Vec<BuildArtifact>) -> (found: bool)
    ensures
        found == !(forall|i: int|
            0 <= i < artifacts@.len() ==> (#[trigger] views(artifacts@)[i]).executable is None),
{
    let ghost all = views(artifacts@);
    let mut i: usize = 0;
    while i < artifacts.len()
        invariant
            i <= artifacts@.len(),
            all == views(artifacts@),
            forall|j: int| 0 <= j < i ==> (#[trigger] all[j]).executable is None,
        decreases artifacts@.len() - i,
    {
        assert(all[i as int] == artifacts@[i as int]@);
        if artifacts[i].executable.is_some() {
            return true;
        }
        i += 1;
    }
    false
}

/// The command that runs the target of arguments, or why there is none.
pub fn workload(args: &CargoRunArgs, artifacts: &Vec<BuildArtifact>) -> (load: Result<
    Workload,
    String,
>)
    ensures
        outcome(load) == workload_of(args@, views(artifacts@)),
{
    if !has_executable(artifacts) {
        return Err("build artifacts do not contain any executable to profile".to_string());
    }
    let target = match find_named_target(args) {
        Some(target) => target,
        None => return Err("no target for profiling".to_string()),
    };
    let at: usize = match find_executable(artifacts, &target.kinds, target.name.as_str()) {
        Some(at) => at,
        None => return Err(
            missing_target_error(&target.kinds, target.name.as_str(), artifacts),
        ),
    };
    proof {
        runs_what_is_found(views(artifacts@), views(target.kinds@), target.name@, 0);
    }
    let mut command: Vec<String> = Vec::new();
    match &artifacts[at].executable {
        Some(path) => command.push(path.clone()),
        None => {},
    }
    let ghost first = views(command@);
    assert(first =~= seq![artifacts@[at as int]@.executable->0]);
    let mut trailing = copy_texts(&args.trailing_arguments);
    let ghost second = views(trailing@);
    command.append(&mut trailing);
    assert(views(command@) =~= first + second);
    let ghost third = views(command@);
    if target.unit_bench {
        command.push("--bench".to_string());
        assert(views(command@) =~= third + seq!["--bench"@]);
    } else {
        assert(third + Seq::<Seq<char>>::empty() =~= third);
    }
    Ok(Workload { command, warning: artifact_warning(args, &artifacts[at]) })
}

proof fn runs_what_is_found(
    artifacts: Seq<ArtifactModel>,
    kinds: Seq<KindModel>,
    name: Seq<char>,
    from: int,
)
    ensures
        executable_from(artifacts, kinds, name, from) matches Some(artifact) ==> runs_target(
            artifact,
            kinds,
            name,
        ),
    decreases artifacts.len() - from,
{
    if 0 <= from < artifacts.len() && !runs_target(artifacts[from], kinds, name) {
        runs_what_is_found(artifacts, kinds, name, from + 1);
    }
}

// ---------------------------------------------------------------------------
// Laws
// ---------------------------------------------------------------------------

/// Whether a message could not be read.
pub open spec fn is_failed(message: MessageModel) -> bool {
    message is Failed
}

/// The built target of a message, if it tells of one.
pub open spec fn artifact_of(message: MessageModel) -> Option<ArtifactModel> {
    match message {
        MessageModel::Artifact { name, kinds, executable, lacks_debuginfo } => Some(
            ArtifactModel { name, kind: kinds_named(kinds), executable, lacks_debuginfo },
        ),
        _ => None,
    }
}

proof fn artifacts_are_listed_up_to(messages: Seq<MessageModel>, count: int)
    requires
        0 <= count <= messages.len(),
    ensures
        artifacts_in(messages, count) is Ok <==> forall|i: int|
            0 <= i < count ==> !is_failed(#[trigger] messages[i]),
        artifacts_in(messages, count) matches Ok(artifacts) ==> artifacts == messages.take(
            count,
        ).filter_map(|message: MessageModel| artifact_of(message)),
    decreases count,
{
    if count > 0 {
        artifacts_are_listed_up_to(messages, count - 1);
        assert(messages.take(count).drop_last() =~= messages.take(count - 1));
        assert(messages.take(count).last() == messages[count - 1]);
        if let Ok(before) = artifacts_in(messages, count - 1) {
            if let Some(artifact) = artifact_of(messages[count - 1]) {
                assert(before.push(artifact) =~= before + seq![artifact]);
            }
        }
        assert(is_failed(messages[count - 1]) || !is_failed(messages[count - 1]));
    }
}

/// What was built is what the messages tell of, in their order, unless one of them could not be
/// read.
pub proof fn artifacts_are_listed_in_order(messages: Seq<MessageModel>)
    ensures
        artifacts_in(messages, messages.len() as int) is Ok <==> forall|i: int|
            0 <= i < messages.len() ==> !is_failed(#[trigger] messages[i]),
        artifacts_in(messages, messages.len() as int) matches Ok(artifacts) ==> artifacts
            == messages.filter_map(|message: MessageModel| artifact_of(message)),
{
    artifacts_are_listed_up_to(messages, messages.len() as int);
    assert(messages.take(messages.len() as int) =~= messages);
}

/// The executable of a target is the first artifact that has its name, is of one of its kinds and
/// can be run.
pub proof fn first_executable_is_run(
    artifacts: Seq<ArtifactModel>,
    kinds: Seq<KindModel>,
    name: Seq<char>,
    from: int,
)
    requires
        0 <= from <= artifacts.len(),
    ensures
        match executable_from(artifacts, kinds, name, from) {
            Some(artifact) => exists|at: int|
                from <= at < artifacts.len() && #[trigger] artifacts[at] == artifact
                    && artifact.executable is Some && artifact.name == name && share_kind(
                    artifact.kind,
                    kinds,
                ) && forall|i: int|
                    from <= i < at ==> !((#[trigger] artifacts[i]).executable is Some
                        && artifacts[i].name == name && share_kind(artifacts[i].kind, kinds)),
            None => forall|i: int|
                from <= i < artifacts.len() ==> !((#[trigger] artifacts[i]).executable is Some
                    && artifacts[i].name == name && share_kind(artifacts[i].kind, kinds)),
        },
    decreases artifacts.len() - from,
{
    if from < artifacts.len() {
        if runs_target(artifacts[from], kinds, name) {
            assert(artifacts[from] == executable_from(artifacts, kinds, name, from)->0);
        } else {
            first_executable_is_run(artifacts, kinds, name, from + 1);
            if let Some(artifact) = executable_from(artifacts, kinds, name, from + 1) {
                let at = choose|at: int|
                    from + 1 <= at < artifacts.len() && #[trigger] artifacts[at] == artifact
                        && artifact.executable is Some && artifact.name == name && share_kind(
                        artifact.kind,
                        kinds,
                    ) && forall|i: int|
                        from + 1 <= i < at ==> !((#[trigger] artifacts[i]).executable is Some
                            && artifacts[i].name == name && share_kind(artifacts[i].kind, kinds));
                assert(artifacts[at] == artifact);
            }
        }
    }
}

/// The command of a workload is the executable with the trailing arguments behind it, in their
/// order; a unit benchmark is told so behind all of them.
pub proof fn workloads_get_their_arguments(args: CargoModel, artifacts: Seq<ArtifactModel>)
    requires
        workload_of(args, artifacts) is Ok,
    ensures
        ({
            let command = workload_of(args, artifacts)->Ok_0.command;
            let count = args.trailing_arguments.len() as int;
            &&& exists|i: int|
                0 <= i < artifacts.len() && (#[trigger] artifacts[i]).executable == Some(
                    command[0],
                )
            &&& command.subrange(1, 1 + count) == args.trailing_arguments
            &&& command.len() == count + 1 || (command.len() == count + 2 && command.last()
                == "--bench"@)
            &&& command.len() == count + 2 ==> args.unit_bench is Some && args.bin is None
                && args.example is None && args.test is None && args.bench is None
        }),
{
    let command = workload_of(args, artifacts)->Ok_0.command;
    let count = args.trailing_arguments.len() as int;
    let (kinds, name) = named_target(args)->0;
    first_executable_is_run(artifacts, kinds, name, 0);
    assert(command.subrange(1, 1 + count) =~= args.trailing_arguments);
}

} // verus!
