//! Where the files of a run lie.

use vstd::prelude::*;
use vstd::string::StringExecFns;

use crate::text::{chars_of, views};

verus! {

/// A path in a directory.
pub open spec fn path_in(root: Seq<char>, name: Seq<char>) -> Seq<char> {
    if root.len() == 0 {
        name
    } else if root.last() == '/' {
        root + name
    } else {
        root + "/"@ + name
    }
}

/// A path in a directory.
#[must_use]
pub fn join_path(root: &str, name: &str) -> (path: String)
    ensures
        path@ == path_in(root@, name@),
{
    let chars = chars_of(root);
    let mut path = root.to_string();
    if chars.len() > 0 && chars[chars.len() - 1] != '/' {
        path.append("/");
    }
    path.append(name);
    assert(path@ =~= path_in(root@, name@));
    path
}

/// The files of a run.
#[derive(Clone, Debug, Eq, PartialEq)]
pub struct ArtifactLayout {
    root: String,
}

impl View for ArtifactLayout {
    type V = Seq<char>;

    closed spec fn view(&self) -> Seq<char> {
        self.root@
    }
}

impl ArtifactLayout {
    /// The files of a run in a directory.
    #[must_use]
    pub fn new(root: &str) -> (layout: ArtifactLayout)
        ensures
            layout@ == root@,
    {
        ArtifactLayout { root: root.to_string() }
    }

    /// The directory.
    #[must_use]
    pub fn root(&self) -> (root: &str)
        ensures
            root@ == self@,
    {
        self.root.as_str()
    }

    #[must_use]
    pub fn run_json(&self) -> (path: String)
        ensures
            path@ == path_in(self@, "run.json"@),
    {
        join_path(self.root.as_str(), "run.json")
    }

    #[must_use]
    pub fn stdout_log(&self) -> (path: String)
        ensures
            path@ == path_in(self@, "stdout.log"@),
    {
        join_path(self.root.as_str(), "stdout.log")
    }

    #[must_use]
    pub fn stderr_log(&self) -> (path: String)
        ensures
            path@ == path_in(self@, "stderr.log"@),
    {
        join_path(self.root.as_str(), "stderr.log")
    }

    #[must_use]
    pub fn command_txt(&self) -> (path: String)
        ensures
            path@ == path_in(self@, "command.txt"@),
    {
        join_path(self.root.as_str(), "command.txt")
    }

    #[must_use]
    pub fn raw_profile(&self, extension: &str) -> (path: String)
        ensures
            path@ == path_in(self@, "profile.raw."@ + extension@),
    {
        let name = crate::text::joined("profile.raw.", extension);
        join_path(self.root.as_str(), name.as_str())
    }

    #[must_use]
    pub fn stacks_folded(&self) -> (path: String)
        ensures
            path@ == path_in(self@, "stacks.folded"@),
    {
        join_path(self.root.as_str(), "stacks.folded")
    }

    #[must_use]
    pub fn flamegraph_svg(&self) -> (path: String)
        ensures
            path@ == path_in(self@, "flamegraph.svg"@),
    {
        join_path(self.root.as_str(), "flamegraph.svg")
    }

    #[must_use]
    pub fn summary_txt(&self) -> (path: String)
        ensures
            path@ == path_in(self@, "summary.txt"@),
    {
        join_path(self.root.as_str(), "summary.txt")
    }

    #[must_use]
    pub fn summary_json(&self) -> (path: String)
        ensures
            path@ == path_in(self@, "summary.json"@),
    {
        join_path(self.root.as_str(), "summary.json")
    }

    #[must_use]
    pub fn tool_errors_log(&self) -> (path: String)
        ensures
            path@ == path_in(self@, "tool-errors.log"@),
    {
        join_path(self.root.as_str(), "tool-errors.log")
    }

    /// The files that every run leaves.
    #[must_use]
    pub fn standard_manifest_artifacts(&self) -> (paths: Vec<String>)
        ensures
            views(paths@) == standard_artifacts(self@),
    {
        let mut paths: Vec<String> = Vec::new();
        paths.push(self.run_json());
        paths.push(self.stdout_log());
        paths.push(self.stderr_log());
        paths.push(self.command_txt());
        paths.push(self.summary_txt());
        paths.push(self.summary_json());
        paths.push(self.tool_errors_log());
        assert(views(paths@) =~= standard_artifacts(self@));
        paths
    }
}

/// The files that every run leaves in a directory.
pub open spec fn standard_artifacts(root: Seq<char>) -> Seq<Seq<char>> {
    seq![
        path_in(root, "run.json"@),
        path_in(root, "stdout.log"@),
        path_in(root, "stderr.log"@),
        path_in(root, "command.txt"@),
        path_in(root, "summary.txt"@),
        path_in(root, "summary.json"@),
        path_in(root, "tool-errors.log"@),
    ]
}

// ---------------------------------------------------------------------------
// Laws
// ---------------------------------------------------------------------------

/// A path in a directory ends in its name and begins with the directory; a separator stands
/// between them once. Nothing stands in front of a name in no directory.
pub proof fn names_stand_behind_their_directories(directory: Seq<char>, name: Seq<char>)
    ensures
        directory.len() > 0 && directory.last() != '/' ==> path_in(directory, name)
            == directory.push('/') + name,
        path_in(directory.push('/'), name) == directory.push('/') + name,
        path_in(Seq::empty(), name) == name,
{
    reveal_strlit("/");
    assert("/"@ =~= seq!['/']);
    assert(directory + seq!['/'] =~= directory.push('/'));
    assert(directory.push('/').last() == '/');
}

/// Going down into a directory and from there to a name is going to the path of both.
pub proof fn paths_join_step_by_step(root: Seq<char>, directory: Seq<char>, name: Seq<char>)
    requires
        directory.len() > 0,
    ensures
        path_in(path_in(root, directory), name) == path_in(root, path_in(directory, name)),
{
    let whole = path_in(root, directory);
    assert(whole.last() == directory.last());
    assert(path_in(whole, name) =~= path_in(root, path_in(directory, name)));
}

} // verus!
