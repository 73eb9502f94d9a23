//! Profiles of Rust targets that Cargo builds.

use vstd::prelude::*;

use crate::cli::{
    copy_text, copy_texts, InvocationModel, PerfCallGraph, PerfEvent, ProfileInvocation,
    ProfileKind, SymbolizerKind,
};
use crate::process::CommandOutput;
use crate::text::{begins_with, chars_of, same_text, starts_with, text_view, views};

pub mod artifacts;
pub mod targets;

use crate::cargo_cli::artifacts::{
    build_artifacts, built_artifacts, workload, workload_of, WorkloadModel,
};
use crate::cargo_cli::targets::{BinaryTarget, KindModel, TargetKind, TargetModel};

verus! {

// ---------------------------------------------------------------------------
// Commands
// ---------------------------------------------------------------------------

/// The arguments of a Cargo subcommand.
#[derive(Clone, Debug, Eq, PartialEq)]
pub struct CargoCli {
    pub command: CargoCommand,
}

/// The subcommand of Cargo.
#[derive(Clone, Debug, Eq, PartialEq)]
pub enum CargoCommand {
    Pyroclast { command: CargoPyroclastCommand },
}

impl CargoCommand {
    /// The profile that is asked for.
    #[must_use]
    pub fn pyroclast_command(self) -> (command: CargoPyroclastCommand)
        ensures
            self == (CargoCommand::Pyroclast { command }),
    {
        match self {
            CargoCommand::Pyroclast { command } => command,
        }
    }
}

/// Which targets have unit tests.
#[derive(Clone, Copy, Debug, Eq, PartialEq, Structural)]
pub enum UnitTestTargetKind {
    Bin,
    Lib,
}

/// A profile by its kind.
#[derive(Clone, Debug, Eq, PartialEq)]
pub enum CargoPyroclastCommand {
    Memory(CargoRunArgs),
    Cpu(CargoRunArgs),
    Offcpu(CargoRunArgs),
    Latency(CargoRunArgs),
    Async(CargoRunArgs),
}

/// What to build and how to profile it.
#[derive(Clone, Debug, Eq, PartialEq)]
pub struct CargoRunArgs {
    pub dev: bool,
    pub profile: Option<String>,
    pub package: Option<String>,
    pub bin: Option<String>,
    pub example: Option<String>,
    pub test: Option<String>,
    pub unit_test: Option<Option<String>>,
    pub unit_test_kind: Option<UnitTestTargetKind>,
    pub unit_bench: Option<Option<String>>,
    pub bench: Option<String>,
    pub manifest_path: Option<String>,
    pub features: Option<String>,
    pub no_default_features: bool,
    pub release: bool,
    pub target: Option<String>,
    pub out: Option<String>,
    pub name: Option<String>,
    pub json: bool,
    pub no_symbols: bool,
    pub symbolizer: SymbolizerKind,
    pub frequency: u32,
    pub event: PerfEvent,
    pub call_graph: PerfCallGraph,
    pub trailing_arguments: Vec<String>,
}

/// The contents of [`CargoRunArgs`].
#[verifier::ext_equal]
pub struct CargoModel {
    pub dev: bool,
    pub profile: Option<Seq<char>>,
    pub package: Option<Seq<char>>,
    pub bin: Option<Seq<char>>,
    pub example: Option<Seq<char>>,
    pub test: Option<Seq<char>>,
    pub unit_test: Option<Option<Seq<char>>>,
    pub unit_test_kind: Option<UnitTestTargetKind>,
    pub unit_bench: Option<Option<Seq<char>>>,
    pub bench: Option<Seq<char>>,
    pub manifest_path: Option<Seq<char>>,
    pub features: Option<Seq<char>>,
    pub no_default_features: bool,
    pub release: bool,
    pub target: Option<Seq<char>>,
    pub out: Option<Seq<char>>,
    pub name: Option<Seq<char>>,
    pub json: bool,
    pub no_symbols: bool,
    pub symbolizer: SymbolizerKind,
    pub frequency: u32,
    pub event: PerfEvent,
    pub call_graph: PerfCallGraph,
    pub trailing_arguments: Seq<Seq<char>>,
}

/// An option that may be given without a value.
pub open spec fn inner_view(text: Option<Option<String>>) -> Option<Option<Seq<char>>> {
    match text {
        Some(text) => Some(text_view(text)),
        None => None,
    }
}

impl View for CargoRunArgs {
    type V = CargoModel;

    open spec fn view(&self) -> CargoModel {
        CargoModel {
            dev: self.dev,
            profile: text_view(self.profile),
            package: text_view(self.package),
            bin: text_view(self.bin),
            example: text_view(self.example),
            test: text_view(self.test),
            unit_test: inner_view(self.unit_test),
            unit_test_kind: self.unit_test_kind,
            unit_bench: inner_view(self.unit_bench),
            bench: text_view(self.bench),
            manifest_path: text_view(self.manifest_path),
            features: text_view(self.features),
            no_default_features: self.no_default_features,
            release: self.release,
            target: text_view(self.target),
            out: text_view(self.out),
            name: text_view(self.name),
            json: self.json,
            no_symbols: self.no_symbols,
            symbolizer: self.symbolizer,
            frequency: self.frequency,
            event: self.event,
            call_graph: self.call_graph,
            trailing_arguments: views(self.trailing_arguments@),
        }
    }
}

// ---------------------------------------------------------------------------
// The target
// ---------------------------------------------------------------------------

/// Which targets have unit tests: those of a kind, or all.
pub open spec fn unit_kinds(kind: Option<UnitTestTargetKind>) -> Seq<KindModel> {
    match kind {
        Some(UnitTestTargetKind::Bin) => seq![KindModel::Bin],
        Some(UnitTestTargetKind::Lib) => seq![KindModel::Lib, KindModel::RLib],
        None => seq![KindModel::Bin, KindModel::Lib, KindModel::RLib],
    }
}

fn unit_target_kinds(kind: Option<UnitTestTargetKind>) -> (kinds: Vec<TargetKind>)
    ensures
        views(kinds@) == unit_kinds(kind),
{
    let kinds = match kind {
        Some(UnitTestTargetKind::Bin) => vec![TargetKind::Bin],
        Some(UnitTestTargetKind::Lib) => vec![TargetKind::Lib, TargetKind::RLib],
        None => vec![TargetKind::Bin, TargetKind::Lib, TargetKind::RLib],
    };
    assert(views(kinds@) =~= unit_kinds(kind));
    kinds
}

/// A target to look for: of some kinds, and of a name where one was given.
#[derive(Clone, Debug, Eq, PartialEq)]
pub struct TargetQuery {
    pub kinds: Vec<TargetKind>,
    pub name: Option<String>,
}

/// The contents of a [`TargetQuery`].
pub type QueryModel = (Seq<KindModel>, Option<Seq<char>>);

impl View for TargetQuery {
    type V = QueryModel;

    open spec fn view(&self) -> QueryModel {
        (views(self.kinds@), text_view(self.name))
    }
}

impl CargoModel {
    /// Whether no target is named.
    pub open spec fn names_nothing(self) -> bool {
        self.bin is None && self.bench is None && self.example is None && self.test is None
            && self.unit_test is None && self.unit_bench is None
    }

    /// The target that has to be looked for, if one has.
    pub open spec fn query(self) -> Option<QueryModel> {
        if self.names_nothing() {
            Some((seq![KindModel::Bin], None))
        } else if self.unit_test is Some {
            Some((unit_kinds(self.unit_test_kind), self.unit_test->0))
        } else if self.unit_bench is Some {
            Some((unit_kinds(self.unit_test_kind), self.unit_bench->0))
        } else {
            None
        }
    }

    /// With the target that was found.
    pub open spec fn with_target(self, found: TargetModel) -> CargoModel {
        if self.names_nothing() {
            CargoModel { bin: Some(found.target), package: Some(found.package), ..self }
        } else if self.unit_test is Some {
            CargoModel {
                unit_test: Some(Some(found.target)),
                package: Some(found.package),
                ..self
            }
        } else if self.unit_bench is Some {
            CargoModel {
                unit_bench: Some(Some(found.target)),
                package: Some(found.package),
                ..self
            }
        } else {
            self
        }
    }
}

impl CargoRunArgs {
    fn names_no_target(&self) -> (nothing: bool)
        ensures
            nothing == self@.names_nothing(),
    {
        self.bin.is_none() && self.bench.is_none() && self.example.is_none()
            && self.test.is_none() && self.unit_test.is_none() && self.unit_bench.is_none()
    }

    /// The target that has to be looked for, if one has.
    #[must_use]
    pub fn target_query(&self) -> (query: Option<TargetQuery>)
        ensures
            match query {
                Some(query) => self@.query() == Some(query@),
                None => self@.query() is None,
            },
    {
        if self.names_no_target() {
            let kinds = vec![TargetKind::Bin];
            assert(views(kinds@) =~= seq![KindModel::Bin]);
            return Some(TargetQuery { kinds, name: None });
        }
        if let Some(unit_test) = &self.unit_test {
            return Some(
                TargetQuery {
                    kinds: unit_target_kinds(self.unit_test_kind),
                    name: copy_text(unit_test),
                },
            );
        }
        if let Some(unit_bench) = &self.unit_bench {
            return Some(
                TargetQuery {
                    kinds: unit_target_kinds(self.unit_test_kind),
                    name: copy_text(unit_bench),
                },
            );
        }
        None
    }

    /// Takes the target that was found.
    pub fn select_target(&mut self, found: &BinaryTarget)
        ensures
            final(self)@ == old(self)@.with_target(found@),
    {
        if self.names_no_target() {
            self.bin = Some(found.target.clone());
            self.package = Some(found.package.clone());
        } else if self.unit_test.is_some() {
            self.unit_test = Some(Some(found.target.clone()));
            self.package = Some(found.package.clone());
        } else if self.unit_bench.is_some() {
            self.unit_bench = Some(Some(found.target.clone()));
            self.package = Some(found.package.clone());
        }
    }
}

// ---------------------------------------------------------------------------
// The profile
// ---------------------------------------------------------------------------

/// The profile to take of a target, and a warning.
#[derive(Clone, Debug, Eq, PartialEq)]
pub struct CargoInvocation {
    pub invocation: ProfileInvocation,
    pub warning: Option<String>,
}

/// The contents of a [`CargoInvocation`].
#[verifier::ext_equal]
pub struct CargoInvocationModel {
    pub invocation: InvocationModel,
    pub warning: Option<Seq<char>>,
}

impl View for CargoInvocation {
    type V = CargoInvocationModel;

    open spec fn view(&self) -> CargoInvocationModel {
        CargoInvocationModel {
            invocation: self.invocation@,
            warning: text_view(self.warning),
        }
    }
}

/// The profile of a command, with the options of the arguments.
pub open spec fn cargo_profile(
    kind: ProfileKind,
    args: CargoModel,
    symbols: bool,
    load: WorkloadModel,
) -> CargoInvocationModel {
    CargoInvocationModel {
        invocation: InvocationModel {
            kind,
            out: args.out,
            name: args.name,
            json: args.json,
            symbols,
            symbolizer: args.symbolizer,
            frequency: args.frequency,
            event: args.event,
            call_graph: args.call_graph,
            pid: None,
            tids: Seq::empty(),
            threads_of_pid: None,
            duration_secs: 3600,
            command: load.command,
        },
        warning: load.warning,
    }
}

impl CargoPyroclastCommand {
    /// The kind of the profile.
    pub open spec fn profile_kind(self) -> ProfileKind {
        match self {
            CargoPyroclastCommand::Memory(_) => ProfileKind::Memory,
            CargoPyroclastCommand::Cpu(_) => ProfileKind::Cpu,
            CargoPyroclastCommand::Offcpu(_) => ProfileKind::Offcpu,
            CargoPyroclastCommand::Latency(_) => ProfileKind::Latency,
            CargoPyroclastCommand::Async(_) => ProfileKind::Async,
        }
    }

    /// The arguments.
    pub open spec fn run_args(self) -> CargoRunArgs {
        match self {
            CargoPyroclastCommand::Memory(args) => args,
            CargoPyroclastCommand::Cpu(args) => args,
            CargoPyroclastCommand::Offcpu(args) => args,
            CargoPyroclastCommand::Latency(args) => args,
            CargoPyroclastCommand::Async(args) => args,
        }
    }

    /// The kind of the profile and the arguments.
    #[must_use]
    pub fn into_parts(self) -> (parts: (ProfileKind, CargoRunArgs))
        ensures
            parts == (self.profile_kind(), self.run_args()),
    {
        match self {
            CargoPyroclastCommand::Memory(args) => (ProfileKind::Memory, args),
            CargoPyroclastCommand::Cpu(args) => (ProfileKind::Cpu, args),
            CargoPyroclastCommand::Offcpu(args) => (ProfileKind::Offcpu, args),
            CargoPyroclastCommand::Latency(args) => (ProfileKind::Latency, args),
            CargoPyroclastCommand::Async(args) => (ProfileKind::Async, args),
        }
    }

    /// The profile to take, when the target that had to be looked for was found and Cargo has
    /// built it. Whether names are looked up is for the caller to say.
    pub fn into_profile_invocation(
        self,
        found: &Option<BinaryTarget>,
        output: &CommandOutput,
        symbols: bool,
    ) -> (invocation: Result<CargoInvocation, String>)
        ensures
            ({
                let args = match found {
                    Some(found) => self.run_args()@.with_target(found@),
                    None => self.run_args()@,
                };
                crate::text::outcome(invocation) == match built_artifacts(*output) {
                    Err(error) => Err(error),
                    Ok(artifacts) => match workload_of(args, artifacts) {
                        Err(error) => Err(error),
                        Ok(load) => Ok(cargo_profile(self.profile_kind(), args, symbols, load)),
                    },
                }
            }),
    {
        let (kind, mut args) = self.into_parts();
        if let Some(found) = found {
            args.select_target(found);
        }
        let artifacts = match build_artifacts(output) {
            Ok(artifacts) => artifacts,
            Err(error) => return Err(error),
        };
        let load = match workload(&args, &artifacts) {
            Ok(load) => load,
            Err(error) => return Err(error),
        };
        let tids: Vec<u32> = Vec::new();
        assert(tids@ =~= Seq::empty());
        Ok(
            CargoInvocation {
                invocation: ProfileInvocation {
                    kind,
                    out: args.out,
                    name: args.name,
                    json: args.json,
                    symbols,
                    symbolizer: args.symbolizer,
                    frequency: args.frequency,
                    event: args.event,
                    call_graph: args.call_graph,
                    pid: None,
                    tids,
                    threads_of_pid: None,
                    duration_secs: 3600,
                    command: load.command,
                },
                warning: load.warning,
            },
        )
    }
}

// ---------------------------------------------------------------------------
// Arguments in order
// ---------------------------------------------------------------------------

/// Whether an argument is the kind of a profile.
pub open spec fn is_kind(token: Seq<char>) -> bool {
    token == "memory"@ || token == "heap"@ || token == "cpu"@ || token == "offcpu"@ || token
        == "latency"@ || token == "syscalls"@ || token == "async"@
}

fn is_profile_kind(token: &str) -> (found: bool)
    ensures
        found == is_kind(token@),
{
    same_text(token, "memory") || same_text(token, "heap") || same_text(token, "cpu")
        || same_text(token, "offcpu") || same_text(token, "latency") || same_text(
        token,
        "syscalls",
    ) || same_text(token, "async")
}

/// Whether an argument is an option with a value behind an equals sign.
pub open spec fn holds_value(token: Seq<char>) -> bool {
    begins_with(token, "--profile="@) || begins_with(token, "--package="@) || begins_with(
        token,
        "--bin="@,
    ) || begins_with(token, "--example="@) || begins_with(token, "--test="@) || begins_with(
        token,
        "--bench="@,
    ) || begins_with(token, "--manifest-path="@) || begins_with(token, "--features="@)
        || begins_with(token, "--target="@) || begins_with(token, "--unit-test-kind="@)
}

fn has_inline_value(token: &str) -> (found: bool)
    ensures
        found == holds_value(token@),
{
    let chars = chars_of(token);
    let text = chars.as_slice();
    starts_with(text, "--profile=") || starts_with(text, "--package=") || starts_with(
        text,
        "--bin=",
    ) || starts_with(text, "--example=") || starts_with(text, "--test=") || starts_with(
        text,
        "--bench=",
    ) || starts_with(text, "--manifest-path=") || starts_with(text, "--features=")
        || starts_with(text, "--target=") || starts_with(text, "--unit-test-kind=")
}

/// Whether an argument is a switch of the build.
pub open spec fn is_switch(token: Seq<char>) -> bool {
    token == "--dev"@ || token == "--no-default-features"@ || token == "--release"@ || token
        == "-r"@
}

fn is_build_switch(token: &str) -> (found: bool)
    ensures
        found == is_switch(token@),
{
    same_text(token, "--dev") || same_text(token, "--no-default-features") || same_text(
        token,
        "--release",
    ) || same_text(token, "-r")
}

/// Whether an argument is an option whose value stands behind it.
pub open spec fn takes_value(token: Seq<char>) -> bool {
    token == "--profile"@ || token == "--package"@ || token == "-p"@ || token == "--bin"@ || token
        == "--example"@ || token == "--test"@ || token == "--bench"@ || token
        == "--manifest-path"@ || token == "--features"@ || token == "-f"@ || token == "--target"@
        || token == "--unit-test-kind"@
}

fn is_build_option(token: &str) -> (found: bool)
    ensures
        found == takes_value(token@),
{
    same_text(token, "--profile") || same_text(token, "--package") || same_text(token, "-p")
        || same_text(token, "--bin") || same_text(token, "--example") || same_text(
        token,
        "--test",
    ) || same_text(token, "--bench") || same_text(token, "--manifest-path") || same_text(
        token,
        "--features",
    ) || same_text(token, "-f") || same_text(token, "--target") || same_text(
        token,
        "--unit-test-kind",
    )
}

/// Whether an argument is an option that may have a value behind it.
pub open spec fn may_take_value(token: Seq<char>) -> bool {
    token == "--unit-test"@ || token == "--unit-bench"@
}

/// How many arguments the build option at an index takes; none where there is no build option.
pub open spec fn option_len(args: Seq<Seq<char>>, at: int) -> Option<int> {
    let token = args[at];
    if holds_value(token) || is_switch(token) {
        Some(1)
    } else if takes_value(token) {
        if at + 1 < args.len() {
            Some(2)
        } else {
            Some(1)
        }
    } else if may_take_value(token) {
        if at + 1 < args.len() && !begins_with(args[at + 1], "-"@) && !is_kind(args[at + 1]) {
            Some(2)
        } else {
            Some(1)
        }
    } else {
        None
    }
}

fn leading_cargo_build_arg_len(args: &Vec<String>, index: usize) -> (len: Option<usize>)
    requires
        index < args@.len(),
    ensures
        match len {
            Some(len) => option_len(views(args@), index as int) == Some(len as int),
            None => option_len(views(args@), index as int) is None,
        },
{
    let total: usize = args.len();
    let token = args[index].as_str();
    if has_inline_value(token) || is_build_switch(token) {
        return Some(1);
    }
    if is_build_option(token) {
        return Some(
            if total - index > 1 {
                2
            } else {
                1
            },
        );
    }
    if same_text(token, "--unit-test") || same_text(token, "--unit-bench") {
        if total - index > 1 {
            let next = chars_of(args[index + 1].as_str());
            assert(views(args@)[index + 1] == args@[index + 1]@);
            if !starts_with(next.as_slice(), "-") && !is_profile_kind(args[index + 1].as_str()) {
                return Some(2);
            }
        }
        return Some(1);
    }
    None
}

/// Where the kind of the profile stands behind build options.
pub open spec fn kind_position(args: Seq<Seq<char>>, at: int) -> Option<int>
    decreases args.len() + 1 - at,
{
    if at < 0 || at >= args.len() {
        None
    } else if is_kind(args[at]) {
        Some(at)
    } else if args[at] == "--"@ {
        None
    } else {
        match option_len(args, at) {
            None => None,
            Some(len) => kind_position(args, at + len),
        }
    }
}

/// With the argument at an index in front of those from the third on.
pub open spec fn moved_up(args: Seq<Seq<char>>, at: int) -> Seq<Seq<char>> {
    args.subrange(0, 2) + seq![args[at]] + args.subrange(2, at) + args.subrange(
        at + 1,
        args.len() as int,
    )
}

/// With the kind of the profile in front of the build options.
pub open spec fn kind_first(args: Seq<Seq<char>>) -> Seq<Seq<char>> {
    if args.len() < 4 {
        args
    } else {
        match kind_position(args, 2) {
            Some(at) => moved_up(args, at),
            None => args,
        }
    }
}

/// Arguments as Cargo hands them to its subcommand.
pub open spec fn as_subcommand(args: Seq<Seq<char>>) -> Seq<Seq<char>> {
    let named = if args.len() == 0 {
        seq!["cargo"@]
    } else {
        args
    };
    if named.len() > 1 && named[1] == "pyroclast"@ {
        named
    } else {
        named.insert(1, "pyroclast"@)
    }
}

/// Brings arguments into the order that is read: the subcommand, the kind of the profile, the
/// rest.
#[must_use]
pub fn normalize_cargo_args(args: &Vec<String>) -> (normalized: Vec<String>)
    ensures
        views(normalized@) == kind_first(as_subcommand(views(args@))),
{
    let mut normalized = copy_texts(args);
    let ghost given = views(args@);
    if normalized.len() == 0 {
        normalized.push("cargo".to_string());
        assert(views(normalized@) =~= seq!["cargo"@]);
    }
    let ghost named = views(normalized@);
    if normalized.len() < 2 || !same_text(normalized[1].as_str(), "pyroclast") {
        assert(normalized@.len() >= 1);
        normalized.insert(1, "pyroclast".to_string());
        assert(views(normalized@) =~= named.insert(1, "pyroclast"@));
    }
    reorder_leading_cargo_build_args(normalized)
}

fn reorder_leading_cargo_build_args(args: Vec<String>) -> (reordered: Vec<String>)
    ensures
        views(reordered@) == kind_first(views(args@)),
{
    let total: usize = args.len();
    if total < 4 {
        return args;
    }
    let ghost all = views(args@);
    let mut index: usize = 2;
    while index < total
        invariant
            total == args@.len(),
            4 <= total,
            2 <= index <= total,
            all == views(args@),
            kind_position(all, 2) == kind_position(all, index as int),
        decreases total - index,
    {
        assert(all[index as int] == args@[index as int]@);
        if is_profile_kind(args[index].as_str()) {
            return move_up(args, index);
        }
        if same_text(args[index].as_str(), "--") {
            return args;
        }
        match leading_cargo_build_arg_len(&args, index) {
            Some(len) => {
                if len > total - index {
                    return args;
                }
                index += len;
            },
            None => return args,
        }
    }
    args
}

fn move_up(args: Vec<String>, index: usize) -> (moved: Vec<String>)
    requires
        2 <= index < args@.len(),
    ensures
        views(moved@) == moved_up(views(args@), index as int),
{
    let ghost before = views(args@);
    let mut moved = args;
    let kind = moved.remove(index);
    moved.insert(2, kind);
    assert(views(moved@) =~= moved_up(before, index as int));
    moved
}

/// Arguments in order stay as they are.
pub proof fn normal_arguments_stay(args: Seq<Seq<char>>)
    ensures
        kind_first(as_subcommand(kind_first(as_subcommand(args)))) == kind_first(
            as_subcommand(args),
        ),
{
    let named = as_subcommand(args);
    let ordered = kind_first(named);
    assert(named.len() >= 2 && named[1] == "pyroclast"@);
    if named.len() >= 4 {
        if let Some(at) = kind_position(named, 2) {
            kind_stands_there(named, 2);
            assert(ordered[1] == "pyroclast"@);
            assert(ordered[2] == named[at]);
            assert(ordered.len() == named.len());
            assert(kind_position(ordered, 2) == Some(2int));
            assert(moved_up(ordered, 2) =~= ordered);
        }
    }
}

proof fn kind_stands_there(args: Seq<Seq<char>>, at: int)
    requires
        0 <= at,
        kind_position(args, at) is Some,
    ensures
        at <= kind_position(args, at)->0 < args.len(),
        is_kind(args[kind_position(args, at)->0]),
    decreases args.len() + 1 - at,
{
    if !is_kind(args[at]) {
        kind_stands_there(args, at + option_len(args, at)->0);
    }
}

// ---------------------------------------------------------------------------
// Laws
// ---------------------------------------------------------------------------

/// Normal arguments are those that were given, with the name of the subcommand perhaps; where the
/// kind of a profile stands behind build options it is moved in front of them, and the others keep
/// their order.
pub proof fn arguments_keep_their_order(args: Seq<Seq<char>>)
    ensures
        match (args.len() >= 4, kind_position(args, 2)) {
            (true, Some(at)) => {
                &&& 2 <= at < args.len()
                &&& is_kind(args[at])
                &&& kind_first(args)[2] == args[at]
                &&& kind_first(args).remove(2) == args.remove(at)
                &&& kind_first(args).len() == args.len()
            },
            _ => kind_first(args) == args,
        },
        args.len() > 1 && args[1] == "pyroclast"@ ==> as_subcommand(args) == args,
        args.len() > 0 && !(args.len() > 1 && args[1] == "pyroclast"@) ==> as_subcommand(
            args,
        )[1] == "pyroclast"@ && as_subcommand(args).remove(1) == args,
{
    if args.len() >= 4 {
        kinds_stand_behind_options(args, 2);
        if let Some(at) = kind_position(args, 2) {
            assert(kind_first(args).remove(2) =~= args.remove(at));
        }
    }
    if args.len() > 0 {
        assert(args.insert(1, "pyroclast"@).remove(1) =~= args);
    }
}

proof fn kinds_stand_behind_options(args: Seq<Seq<char>>, at: int)
    requires
        0 <= at,
    ensures
        kind_position(args, at) matches Some(found) ==> at <= found < args.len() && is_kind(
            args[found],
        ),
    decreases args.len() + 1 - at,
{
    if at < args.len() && !is_kind(args[at]) && args[at] != "--"@ {
        if let Some(len) = option_len(args, at) {
            kinds_stand_behind_options(args, at + len);
        }
    }
}

} // verus!
