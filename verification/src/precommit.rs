//! What runs before a commit.

use vstd::prelude::*;

use crate::text::{join_texts, joined_with, views};

verus! {

/// A program to run, with a name for it.
#[derive(Clone, Debug, Eq, PartialEq)]
pub struct Check {
    pub name: String,
    pub program: String,
    pub args: Vec<String>,
}

/// The contents of a [`Check`].
#[verifier::ext_equal]
pub struct CheckModel {
    pub name: Seq<char>,
    pub program: Seq<char>,
    pub args: Seq<Seq<char>>,
}

impl View for Check {
    type V = CheckModel;

    open spec fn view(&self) -> CheckModel {
        CheckModel { name: self.name@, program: self.program@, args: views(self.args@) }
    }
}

/// The arguments of Clippy: every warning is an error.
pub open spec fn clippy_args() -> Seq<Seq<char>> {
    seq![
        "clippy"@,
        "--all-targets"@,
        "--"@,
        "-D"@,
        "warnings"@,
        "-W"@,
        "clippy::pedantic"@,
    ]
}

/// What runs before a commit, in order.
pub open spec fn all_checks() -> Seq<CheckModel> {
    seq![
        CheckModel { name: "rustfmt"@, program: "cargo"@, args: seq!["fmt"@, "--check"@] },
        CheckModel { name: "clippy pedantic"@, program: "cargo"@, args: clippy_args() },
        CheckModel { name: "nextest"@, program: "cargo"@, args: seq!["nextest"@, "run"@] },
        CheckModel {
            name: "flake check"@,
            program: "nix"@,
            args: seq!["flake"@, "check"@, "--no-build"@],
        },
    ]
}

fn check(name: &str, program: &str, args: Vec<String>) -> (check: Check)
    ensures
        check@ == (CheckModel { name: name@, program: program@, args: views(args@) }),
{
    Check { name: name.to_string(), program: program.to_string(), args }
}

/// What runs before a commit, in order.
#[must_use]
pub fn checks() -> (checks: Vec<Check>)
    ensures
        views(checks@) == all_checks(),
{
    let format = vec!["fmt".to_string(), "--check".to_string()];
    assert(views(format@) =~= seq!["fmt"@, "--check"@]);
    let clippy = vec![
        "clippy".to_string(),
        "--all-targets".to_string(),
        "--".to_string(),
        "-D".to_string(),
        "warnings".to_string(),
        "-W".to_string(),
        "clippy::pedantic".to_string(),
    ];
    assert(views(clippy@) =~= clippy_args());
    let nextest = vec!["nextest".to_string(), "run".to_string()];
    assert(views(nextest@) =~= seq!["nextest"@, "run"@]);
    let flake = vec!["flake".to_string(), "check".to_string(), "--no-build".to_string()];
    assert(views(flake@) =~= seq!["flake"@, "check"@, "--no-build"@]);
    let checks = vec![
        check("rustfmt", "cargo", format),
        check("clippy pedantic", "cargo", clippy),
        check("nextest", "cargo", nextest),
        check("flake check", "nix", flake),
    ];
    assert(views(checks@) =~= all_checks());
    checks
}

/// The command of a check as one line.
#[must_use]
pub fn shell_command(check: &Check) -> (line: String)
    ensures
        line@ == joined_with(
            seq![check@.program] + check@.args,
            " "@,
            1 + check@.args.len() as int,
        ),
{
    let mut words = crate::cli::copy_texts(&check.args);
    let ghost args = views(words@);
    words.insert(0, check.program.clone());
    assert(views(words@) =~= seq![check@.program] + args);
    join_texts(&words, " ")
}

} // verus!
