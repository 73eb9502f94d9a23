//! The targets of a workspace.

use vstd::prelude::*;
use vstd::string::StringExecFns;

use crate::text::{
    begins_with, chars_of, is_free_of, join_texts, joined_with, outcome, pieces_from,
    pieces_of_texts_join, same_text, split_text, starts_with, text_of, text_view, views,
};

verus! {

// ---------------------------------------------------------------------------
// Kinds
// ---------------------------------------------------------------------------

/// What a target is built as.
#[derive(Clone, Debug, Eq, PartialEq)]
pub enum TargetKind {
    Bench,
    Bin,
    CustomBuild,
    CDyLib,
    DyLib,
    Example,
    Lib,
    ProcMacro,
    RLib,
    StaticLib,
    Test,
    Unknown(String),
}

/// What a target is built as.
#[verifier::ext_equal]
pub enum KindModel {
    Bench,
    Bin,
    CustomBuild,
    CDyLib,
    DyLib,
    Example,
    Lib,
    ProcMacro,
    RLib,
    StaticLib,
    Test,
    Unknown(Seq<char>),
}

impl View for TargetKind {
    type V = KindModel;

    open spec fn view(&self) -> KindModel {
        match *self {
            TargetKind::Bench => KindModel::Bench,
            TargetKind::Bin => KindModel::Bin,
            TargetKind::CustomBuild => KindModel::CustomBuild,
            TargetKind::CDyLib => KindModel::CDyLib,
            TargetKind::DyLib => KindModel::DyLib,
            TargetKind::Example => KindModel::Example,
            TargetKind::Lib => KindModel::Lib,
            TargetKind::ProcMacro => KindModel::ProcMacro,
            TargetKind::RLib => KindModel::RLib,
            TargetKind::StaticLib => KindModel::StaticLib,
            TargetKind::Test => KindModel::Test,
            TargetKind::Unknown(name) => KindModel::Unknown(name@),
        }
    }
}

/// The kind that Cargo gives a name to.
pub open spec fn kind_named(name: Seq<char>) -> KindModel {
    if name == "bench"@ {
        KindModel::Bench
    } else if name == "bin"@ {
        KindModel::Bin
    } else if name == "custom-build"@ {
        KindModel::CustomBuild
    } else if name == "cdylib"@ {
        KindModel::CDyLib
    } else if name == "dylib"@ {
        KindModel::DyLib
    } else if name == "example"@ {
        KindModel::Example
    } else if name == "lib"@ {
        KindModel::Lib
    } else if name == "proc-macro"@ {
        KindModel::ProcMacro
    } else if name == "rlib"@ {
        KindModel::RLib
    } else if name == "staticlib"@ {
        KindModel::StaticLib
    } else if name == "test"@ {
        KindModel::Test
    } else {
        KindModel::Unknown(name)
    }
}

impl TargetKind {
    /// The kind that Cargo gives a name to.
    #[must_use]
    pub fn named(name: &str) -> (kind: TargetKind)
        ensures
            kind@ == kind_named(name@),
    {
        if same_text(name, "bench") {
            TargetKind::Bench
        } else if same_text(name, "bin") {
            TargetKind::Bin
        } else if same_text(name, "custom-build") {
            TargetKind::CustomBuild
        } else if same_text(name, "cdylib") {
            TargetKind::CDyLib
        } else if same_text(name, "dylib") {
            TargetKind::DyLib
        } else if same_text(name, "example") {
            TargetKind::Example
        } else if same_text(name, "lib") {
            TargetKind::Lib
        } else if same_text(name, "proc-macro") {
            TargetKind::ProcMacro
        } else if same_text(name, "rlib") {
            TargetKind::RLib
        } else if same_text(name, "staticlib") {
            TargetKind::StaticLib
        } else if same_text(name, "test") {
            TargetKind::Test
        } else {
            TargetKind::Unknown(name.to_string())
        }
    }

    /// Tells whether two kinds are the same.
    #[must_use]
    pub fn same(&self, other: &TargetKind) -> (same: bool)
        ensures
            same == (self@ == other@),
    {
        match (self, other) {
            (TargetKind::Bench, TargetKind::Bench) => true,
            (TargetKind::Bin, TargetKind::Bin) => true,
            (TargetKind::CustomBuild, TargetKind::CustomBuild) => true,
            (TargetKind::CDyLib, TargetKind::CDyLib) => true,
            (TargetKind::DyLib, TargetKind::DyLib) => true,
            (TargetKind::Example, TargetKind::Example) => true,
            (TargetKind::Lib, TargetKind::Lib) => true,
            (TargetKind::ProcMacro, TargetKind::ProcMacro) => true,
            (TargetKind::RLib, TargetKind::RLib) => true,
            (TargetKind::StaticLib, TargetKind::StaticLib) => true,
            (TargetKind::Test, TargetKind::Test) => true,
            (TargetKind::Unknown(left), TargetKind::Unknown(right)) => same_text(
                left.as_str(),
                right.as_str(),
            ),
            _ => false,
        }
    }

    /// A copy of the kind.
    #[must_use]
    pub fn copy(&self) -> (kind: TargetKind)
        ensures
            kind@ == self@,
    {
        match self {
            TargetKind::Bench => TargetKind::Bench,
            TargetKind::Bin => TargetKind::Bin,
            TargetKind::CustomBuild => TargetKind::CustomBuild,
            TargetKind::CDyLib => TargetKind::CDyLib,
            TargetKind::DyLib => TargetKind::DyLib,
            TargetKind::Example => TargetKind::Example,
            TargetKind::Lib => TargetKind::Lib,
            TargetKind::ProcMacro => TargetKind::ProcMacro,
            TargetKind::RLib => TargetKind::RLib,
            TargetKind::StaticLib => TargetKind::StaticLib,
            TargetKind::Test => TargetKind::Test,
            TargetKind::Unknown(name) => TargetKind::Unknown(name.clone()),
        }
    }
}

/// Whether two lists have a kind in common.
pub open spec fn share_kind(left: Seq<KindModel>, right: Seq<KindModel>) -> bool {
    exists|i: int, j: int|
        #![trigger left[i], right[j]]
        0 <= i < left.len() && 0 <= j < right.len() && left[i] == right[j]
}

/// Tells whether two lists have a kind in common.
#[must_use]
pub fn shares_kind(left: &Vec<TargetKind>, right: &Vec<TargetKind>) -> (shared: bool)
    ensures
        shared == share_kind(views(left@), views(right@)),
{
    let ghost l = views(left@);
    let ghost r = views(right@);
    let mut i: usize = 0;
    while i < left.len()
        invariant
            i <= left@.len(),
            l == views(left@),
            r == views(right@),
            forall|a: int, b: int|
                #![trigger l[a], r[b]]
                0 <= a < i && 0 <= b < r.len() ==> l[a] != r[b],
        decreases left@.len() - i,
    {
        let mut j: usize = 0;
        while j < right.len()
            invariant
                i < left@.len(),
                j <= right@.len(),
                l == views(left@),
                r == views(right@),
                forall|b: int| 0 <= b < j ==> l[i as int] != #[trigger] r[b],
            decreases right@.len() - j,
        {
            if left[i].same(&right[j]) {
                assert(l[i as int] == r[j as int]);
                return true;
            }
            j += 1;
        }
        i += 1;
    }
    false
}

/// A copy of kinds.
#[must_use]
pub fn copy_kinds(kinds: &Vec<TargetKind>) -> (copy: Vec<TargetKind>)
    ensures
        views(copy@) == views(kinds@),
{
    let mut copy: Vec<TargetKind> = Vec::with_capacity(kinds.len());
    let mut i: usize = 0;
    while i < kinds.len()
        invariant
            i <= kinds@.len(),
            copy@.len() == i,
            forall|j: int| 0 <= j < i ==> (#[trigger] copy@[j])@ == kinds@[j]@,
        decreases kinds@.len() - i,
    {
        copy.push(kinds[i].copy());
        i += 1;
    }
    assert(views(copy@) =~= views(kinds@));
    copy
}

// ---------------------------------------------------------------------------
// How targets are shown
// ---------------------------------------------------------------------------

/// What the `Debug` format makes of a text: the text in quotes, with some characters escaped.
pub uninterp spec fn quoted(text: Seq<char>) -> Seq<char>;

/// Formats a text with `{:?}`. Which characters are escaped, and how, is not spelled out, only
/// that the result is a function of the text.
#[verifier::external_body]
pub(crate) fn quote(text: &str) -> (result: String)
    ensures
        result@ == quoted(text@),
{
    format!("{text:?}")
}

/// How a kind is shown.
pub open spec fn kind_text(kind: KindModel) -> Seq<char> {
    match kind {
        KindModel::Bench => "Bench"@,
        KindModel::Bin => "Bin"@,
        KindModel::CustomBuild => "CustomBuild"@,
        KindModel::CDyLib => "CDyLib"@,
        KindModel::DyLib => "DyLib"@,
        KindModel::Example => "Example"@,
        KindModel::Lib => "Lib"@,
        KindModel::ProcMacro => "ProcMacro"@,
        KindModel::RLib => "RLib"@,
        KindModel::StaticLib => "StaticLib"@,
        KindModel::Test => "Test"@,
        KindModel::Unknown(name) => "Unknown("@ + quoted(name) + ")"@,
    }
}

/// How a kind is shown over lines.
pub open spec fn kind_lines(kind: KindModel) -> Seq<char> {
    match kind {
        KindModel::Unknown(name) => "Unknown(\n                "@ + quoted(name)
            + ",\n            )"@,
        _ => kind_text(kind),
    }
}

impl TargetKind {
    /// How the kind is shown.
    #[must_use]
    pub fn text(&self) -> (text: String)
        ensures
            text@ == kind_text(self@),
    {
        match self {
            TargetKind::Bench => "Bench".to_string(),
            TargetKind::Bin => "Bin".to_string(),
            TargetKind::CustomBuild => "CustomBuild".to_string(),
            TargetKind::CDyLib => "CDyLib".to_string(),
            TargetKind::DyLib => "DyLib".to_string(),
            TargetKind::Example => "Example".to_string(),
            TargetKind::Lib => "Lib".to_string(),
            TargetKind::ProcMacro => "ProcMacro".to_string(),
            TargetKind::RLib => "RLib".to_string(),
            TargetKind::StaticLib => "StaticLib".to_string(),
            TargetKind::Test => "Test".to_string(),
            TargetKind::Unknown(name) => {
                let mut text = "Unknown(".to_string();
                text.append(quote(name.as_str()).as_str());
                text.append(")");
                text
            },
        }
    }

    fn lines(&self) -> (text: String)
        ensures
            text@ == kind_lines(self@),
    {
        match self {
            TargetKind::Unknown(name) => {
                let mut text = "Unknown(\n                ".to_string();
                text.append(quote(name.as_str()).as_str());
                text.append(",\n            )");
                text
            },
            _ => self.text(),
        }
    }
}

/// How kinds are shown.
pub open spec fn kind_texts(kinds: Seq<KindModel>) -> Seq<Seq<char>> {
    kinds.map_values(|kind: KindModel| kind_text(kind))
}

/// How a list of kinds is shown.
pub open spec fn kinds_text(kinds: Seq<KindModel>) -> Seq<char> {
    "["@ + joined_with(kind_texts(kinds), ", "@, kinds.len() as int) + "]"@
}

/// Shows a list of kinds.
#[must_use]
pub fn show_kinds(kinds: &Vec<TargetKind>) -> (text: String)
    ensures
        text@ == kinds_text(views(kinds@)),
{
    let mut texts: Vec<String> = Vec::with_capacity(kinds.len());
    let mut i: usize = 0;
    while i < kinds.len()
        invariant
            i <= kinds@.len(),
            texts@.len() == i,
            forall|j: int| 0 <= j < i ==> (#[trigger] texts@[j])@ == kind_text(kinds@[j]@),
        decreases kinds@.len() - i,
    {
        texts.push(kinds[i].text());
        i += 1;
    }
    assert(views(texts@) =~= kind_texts(views(kinds@)));
    let mut text = "[".to_string();
    text.append(join_texts(&texts, ", ").as_str());
    text.append("]");
    text
}

/// The first `count` kinds over lines.
pub open spec fn listed_kinds(kinds: Seq<KindModel>, count: int) -> Seq<char>
    decreases count,
{
    if count <= 0 {
        Seq::empty()
    } else {
        listed_kinds(kinds, count - 1) + "            "@ + kind_lines(kinds[count - 1]) + ",\n"@
    }
}

// ---------------------------------------------------------------------------
// Targets
// ---------------------------------------------------------------------------

/// A target of a package.
#[derive(Clone, Debug, Eq, PartialEq)]
pub struct BinaryTarget {
    pub package: String,
    pub target: String,
    pub kind: Vec<TargetKind>,
}

/// The contents of a [`BinaryTarget`].
#[verifier::ext_equal]
pub struct TargetModel {
    pub package: Seq<char>,
    pub target: Seq<char>,
    pub kind: Seq<KindModel>,
}

impl View for BinaryTarget {
    type V = TargetModel;

    open spec fn view(&self) -> TargetModel {
        TargetModel { package: self.package@, target: self.target@, kind: views(self.kind@) }
    }
}

/// How a target is shown over lines.
pub open spec fn target_lines(target: TargetModel) -> Seq<char> {
    "    BinaryTarget {\n        package: "@ + quoted(target.package) + ",\n        target: "@
        + quoted(target.target) + ",\n        kind: "@ + (if target.kind.len() == 0 {
        "[]"@
    } else {
        "[\n"@ + listed_kinds(target.kind, target.kind.len() as int) + "        ]"@
    }) + ",\n    },\n"@
}

/// The first `count` targets over lines.
pub open spec fn listed_targets(targets: Seq<TargetModel>, count: int) -> Seq<char>
    decreases count,
{
    if count <= 0 {
        Seq::empty()
    } else {
        listed_targets(targets, count - 1) + target_lines(targets[count - 1])
    }
}

impl BinaryTarget {
    fn push_lines(&self, out: &mut String)
        ensures
            final(out)@ == old(out)@ + target_lines(self@),
    {
        let ghost start = out@;
        out.append("    BinaryTarget {\n        package: ");
        out.append(quote(self.package.as_str()).as_str());
        out.append(",\n        target: ");
        out.append(quote(self.target.as_str()).as_str());
        out.append(",\n        kind: ");
        let ghost head = out@;
        let ghost kinds = views(self.kind@);
        if self.kind.len() == 0 {
            out.append("[]");
        } else {
            out.append("[\n");
            let ghost opened = out@;
            let mut i: usize = 0;
            assert(opened + Seq::<char>::empty() =~= opened);
            while i < self.kind.len()
                invariant
                    i <= self.kind@.len(),
                    kinds == views(self.kind@),
                    out@ == opened + listed_kinds(kinds, i as int),
                decreases self.kind@.len() - i,
            {
                out.append("            ");
                out.append(self.kind[i].lines().as_str());
                out.append(",\n");
                i += 1;
                assert(out@ =~= opened + listed_kinds(kinds, i as int));
            }
            out.append("        ]");
        }
        out.append(",\n    },\n");
        assert(out@ =~= start + target_lines(self@));
    }
}

// ---------------------------------------------------------------------------
// Packages
// ---------------------------------------------------------------------------

/// A target as a package lists it.
#[derive(Clone, Debug, Eq, PartialEq)]
pub struct PackageTarget {
    pub name: String,
    pub kind: Vec<TargetKind>,
}

/// A package of a workspace.
#[derive(Clone, Debug, Eq, PartialEq)]
pub struct WorkspacePackage {
    pub name: String,
    pub manifest_path: String,
    pub default_run: Option<String>,
    pub targets: Vec<PackageTarget>,
}

/// The name and the kinds of a target.
pub type ListedModel = (Seq<char>, Seq<KindModel>);

impl View for PackageTarget {
    type V = ListedModel;

    open spec fn view(&self) -> ListedModel {
        (self.name@, views(self.kind@))
    }
}

/// The contents of a [`WorkspacePackage`].
#[verifier::ext_equal]
pub struct PackageModel {
    pub name: Seq<char>,
    pub manifest_path: Seq<char>,
    pub default_run: Option<Seq<char>>,
    pub targets: Seq<ListedModel>,
}

impl View for WorkspacePackage {
    type V = PackageModel;

    open spec fn view(&self) -> PackageModel {
        PackageModel {
            name: self.name@,
            manifest_path: self.manifest_path@,
            default_run: text_view(self.default_run),
            targets: views(self.targets@),
        }
    }
}

/// The parts of a path that name something.
pub open spec fn path_parts(pieces: Seq<Seq<char>>, count: int) -> Seq<Seq<char>>
    decreases count,
{
    if count <= 0 {
        Seq::empty()
    } else {
        let rest = path_parts(pieces, count - 1);
        let piece = pieces[count - 1];
        if piece.len() == 0 || piece == "."@ {
            rest
        } else {
            rest.push(piece)
        }
    }
}

/// The parts of a path.
pub open spec fn parts_of(path: Seq<char>) -> Seq<Seq<char>> {
    let pieces = pieces_from(path, "/"@, 0);
    path_parts(pieces, pieces.len() as int)
}

/// Whether a path lies in a directory, both given from the root on.
pub open spec fn path_lies_in(path: Seq<char>, directory: Seq<char>) -> bool {
    let parts = parts_of(path);
    let wanted = parts_of(directory);
    begins_with(path, "/"@) == begins_with(directory, "/"@) && wanted.len() <= parts.len()
        && parts.subrange(0, wanted.len() as int) == wanted
}

fn split_path(path: &str) -> (parts: Vec<String>)
    ensures
        views(parts@) == parts_of(path@),
{
    let chars = chars_of(path);
    proof {
        reveal_strlit("/");
    }
    let pieces = split_text(chars.as_slice(), "/");
    let ghost all = views(pieces@);
    let mut parts: Vec<String> = Vec::new();
    let mut i: usize = 0;
    assert(views(parts@) =~= Seq::empty());
    while i < pieces.len()
        invariant
            i <= pieces@.len(),
            all == views(pieces@),
            views(parts@) == path_parts(all, i as int),
        decreases pieces@.len() - i,
    {
        assert(all[i as int] == pieces@[i as int]@);
        let piece = text_of(pieces[i].as_slice());
        if pieces[i].len() > 0 && !same_text(piece.as_str(), ".") {
            let ghost before = views(parts@);
            parts.push(piece);
            assert(views(parts@) =~= before.push(piece@));
        }
        i += 1;
    }
    parts
}

/// Tells whether a path lies in a directory, both given from the root on.
#[must_use]
pub fn lies_in(path: &str, directory: &str) -> (found: bool)
    ensures
        found == path_lies_in(path@, directory@),
{
    let path_chars = chars_of(path);
    let directory_chars = chars_of(directory);
    if starts_with(path_chars.as_slice(), "/") != starts_with(directory_chars.as_slice(), "/") {
        return false;
    }
    let parts = split_path(path);
    let wanted = split_path(directory);
    if wanted.len() > parts.len() {
        return false;
    }
    let ghost all = parts_of(path@);
    let ghost start = parts_of(directory@);
    let mut i: usize = 0;
    while i < wanted.len()
        invariant
            i <= wanted@.len() <= parts@.len(),
            all == views(parts@),
            start == views(wanted@),
            all == parts_of(path@),
            start == parts_of(directory@),
            forall|j: int| 0 <= j < i ==> all[j] == start[j],
        decreases wanted@.len() - i,
    {
        assert(all[i as int] == parts@[i as int]@);
        assert(start[i as int] == wanted@[i as int]@);
        if !same_text(parts[i].as_str(), wanted[i].as_str()) {
            assert(all.subrange(0, start.len() as int)[i as int] != start[i as int]);
            return false;
        }
        i += 1;
    }
    assert(all.subrange(0, start.len() as int) =~= start);
    true
}

// ---------------------------------------------------------------------------
// The target to profile
// ---------------------------------------------------------------------------

/// Which target is looked for: of some kinds, of a package or in a directory, and of a name.
#[verifier::ext_equal]
pub struct SearchModel {
    pub kinds: Seq<KindModel>,
    pub package: Option<Seq<char>>,
    pub crate_root: Seq<char>,
    pub name: Option<Seq<char>>,
}

impl SearchModel {
    /// Whether targets of a package are looked at.
    pub open spec fn takes_package(self, package: PackageModel) -> bool {
        match self.package {
            Some(name) => name == package.name,
            None => path_lies_in(package.manifest_path, self.crate_root),
        }
    }

    /// Whether a target of a package can be chosen: it is of one of the kinds, the package does
    /// not run another one, and it has the name.
    pub open spec fn takes_target(self, package: PackageModel, target: ListedModel) -> bool {
        &&& share_kind(target.1, self.kinds)
        &&& (package.default_run matches Some(run) ==> run == target.0)
        &&& (self.name matches Some(name) ==> name == target.0)
    }
}

/// The targets among the first `count` of a package that can be chosen.
pub open spec fn package_candidates(
    search: SearchModel,
    package: PackageModel,
    count: int,
) -> Seq<TargetModel>
    decreases count,
{
    if count <= 0 {
        Seq::empty()
    } else {
        let rest = package_candidates(search, package, count - 1);
        let target = package.targets[count - 1];
        if search.takes_target(package, target) {
            rest.push(
                TargetModel { package: package.name, target: target.0, kind: target.1 },
            )
        } else {
            rest
        }
    }
}

/// What the first `count` packages give: how many are looked at, whether one of them says what
/// it runs, and the targets that can be chosen.
#[verifier::ext_equal]
pub struct CandidatesModel {
    pub packages: nat,
    pub default_run: bool,
    pub targets: Seq<TargetModel>,
}

/// What the first `count` packages give.
pub open spec fn candidates(search: SearchModel, packages: Seq<PackageModel>, count: int) ->
    CandidatesModel
    decreases count,
{
    if count <= 0 {
        CandidatesModel { packages: 0, default_run: false, targets: Seq::empty() }
    } else {
        let rest = candidates(search, packages, count - 1);
        let package = packages[count - 1];
        if search.takes_package(package) {
            CandidatesModel {
                packages: rest.packages + 1,
                default_run: rest.default_run || package.default_run is Some,
                targets: rest.targets + package_candidates(
                    search,
                    package,
                    package.targets.len() as int,
                ),
            }
        } else {
            rest
        }
    }
}

/// The target that was chosen, and what to say of it.
#[derive(Clone, Debug, Eq, PartialEq)]
pub struct FoundTarget {
    pub target: BinaryTarget,
    pub note: Option<String>,
}

/// The contents of a [`FoundTarget`].
#[verifier::ext_equal]
pub struct FoundModel {
    pub target: TargetModel,
    pub note: Option<Seq<char>>,
}

impl View for FoundTarget {
    type V = FoundModel;

    open spec fn view(&self) -> FoundModel {
        FoundModel { target: self.target@, note: text_view(self.note) }
    }
}

/// The one target that can be chosen, or why there is none.
pub open spec fn unique_target(search: SearchModel, found: CandidatesModel) -> Result<
    FoundModel,
    Seq<char>,
> {
    if found.packages == 0 {
        match search.package {
            Some(name) => Err("workspace has no package named "@ + name),
            None => Err(
                "failed to find any package in '"@ + search.crate_root + "' or below"@,
            ),
        }
    } else if found.targets.len() == 1 {
        let target = found.targets[0];
        Ok(
            FoundModel {
                target,
                note: if found.packages != 1 || !found.default_run {
                    Some(
                        "automatically selected target "@ + target.target + " in package "@
                            + target.package + " as it is the only valid target"@,
                    )
                } else {
                    None
                },
            },
        )
    } else if found.targets.len() == 0 {
        Err(
            "crate has no automatically selectable target:\nHint: try passing `--example <example>` or similar to choose a binary"@,
        )
    } else {
        Err(
            "several possible targets found: [\n"@ + listed_targets(
                found.targets,
                found.targets.len() as int,
            ) + "], please pass an explicit target."@,
        )
    }
}

fn matches_name(wanted: &Option<String>, name: &str) -> (matches: bool)
    ensures
        matches == (text_view(*wanted) matches Some(text) ==> text == name@),
{
    match wanted {
        Some(text) => same_text(text.as_str(), name),
        None => true,
    }
}

fn push_candidates(
    out: &mut Vec<BinaryTarget>,
    kinds: &Vec<TargetKind>,
    name: &Option<String>,
    package: &WorkspacePackage,
    search: Ghost<SearchModel>,
)
    requires
        search@.kinds == views(kinds@),
        search@.name == text_view(*name),
    ensures
        views(final(out)@) == views(old(out)@) + package_candidates(
            search@,
            package@,
            package.targets@.len() as int,
        ),
{
    let ghost start = views(out@);
    let mut i: usize = 0;
    assert(start + Seq::<TargetModel>::empty() =~= start);
    while i < package.targets.len()
        invariant
            i <= package.targets@.len(),
            search@.kinds == views(kinds@),
            search@.name == text_view(*name),
            views(out@) == start + package_candidates(search@, package@, i as int),
        decreases package.targets@.len() - i,
    {
        let target = &package.targets[i];
        assert(package@.targets[i as int] == target@);
        if shares_kind(&target.kind, kinds) && matches_name(
            &package.default_run,
            target.name.as_str(),
        ) && matches_name(name, target.name.as_str()) {
            let ghost before = views(out@);
            let found = BinaryTarget {
                package: package.name.clone(),
                target: target.name.clone(),
                kind: copy_kinds(&target.kind),
            };
            out.push(found);
            proof {
                assert(views(out@) =~= before.push(found@));
                assert(views(out@) =~= start + package_candidates(search@, package@, i + 1));
            }
        }
        i += 1;
    }
}

/// Looks for the one target that can be profiled. `packages` are those of the workspace, and
/// `crate_root` is the directory of the manifest.
pub fn find_unique_target(
    kinds: &Vec<TargetKind>,
    package: &Option<String>,
    crate_root: &str,
    name: &Option<String>,
    packages: &Vec<WorkspacePackage>,
) -> (found: Result<FoundTarget, String>)
    ensures
        ({
            let search = SearchModel {
                kinds: views(kinds@),
                package: text_view(*package),
                crate_root: crate_root@,
                name: text_view(*name),
            };
            outcome(found) == unique_target(
                search,
                candidates(search, views(packages@), packages@.len() as int),
            )
        }),
{
    let ghost search = SearchModel {
        kinds: views(kinds@),
        package: text_view(*package),
        crate_root: crate_root@,
        name: text_view(*name),
    };
    let ghost all = views(packages@);
    let mut targets: Vec<BinaryTarget> = Vec::new();
    let mut package_count: usize = 0;
    let mut selected_default_run = false;
    let mut i: usize = 0;
    assert(views(targets@) =~= Seq::empty());
    while i < packages.len()
        invariant
            i <= packages@.len(),
            package_count <= i,
            all == views(packages@),
            search.kinds == views(kinds@),
            search.package == text_view(*package),
            search.crate_root == crate_root@,
            search.name == text_view(*name),
            ({
                let found = candidates(search, all, i as int);
                &&& found.packages == package_count
                &&& found.default_run == selected_default_run
                &&& found.targets == views(targets@)
            }),
        decreases packages@.len() - i,
    {
        let listed = &packages[i];
        assert(all[i as int] == listed@);
        let taken = match package {
            Some(name) => same_text(name.as_str(), listed.name.as_str()),
            None => lies_in(listed.manifest_path.as_str(), crate_root),
        };
        if taken {
            package_count += 1;
            selected_default_run = selected_default_run || listed.default_run.is_some();
            push_candidates(&mut targets, kinds, name, listed, Ghost(search));
        }
        i += 1;
    }
    let ghost found = candidates(search, all, all.len() as int);
    if package_count == 0 {
        let mut error = String::new();
        match package {
            Some(name) => {
                error.append("workspace has no package named ");
                error.append(name.as_str());
            },
            None => {
                error.append("failed to find any package in '");
                error.append(crate_root);
                error.append("' or below");
            },
        }
        assert(unique_target(search, found)->Err_0 =~= error@);
        return Err(error);
    }
    if targets.len() == 0 {
        return Err(
            "crate has no automatically selectable target:\nHint: try passing `--example <example>` or similar to choose a binary".to_string(),
        );
    }
    if targets.len() == 1 {
        let target = targets.remove(0);
        assert(found.targets[0] == target@);
        let note = if package_count != 1 || !selected_default_run {
            let mut text = "automatically selected target ".to_string();
            text.append(target.target.as_str());
            text.append(" in package ");
            text.append(target.package.as_str());
            text.append(" as it is the only valid target");
            Some(text)
        } else {
            None
        };
        return Ok(FoundTarget { target, note });
    }
    let mut error = "several possible targets found: [\n".to_string();
    let ghost opened = error@;
    let ghost shown = views(targets@);
    let mut i: usize = 0;
    assert(opened + Seq::<char>::empty() =~= opened);
    while i < targets.len()
        invariant
            i <= targets@.len(),
            shown == views(targets@),
            error@ == opened + listed_targets(shown, i as int),
        decreases targets@.len() - i,
    {
        assert(shown[i as int] == targets@[i as int]@);
        targets[i].push_lines(&mut error);
        i += 1;
        assert(error@ =~= opened + listed_targets(shown, i as int));
    }
    error.append("], please pass an explicit target.");
    Err(error)
}

/// A directory that may hold a manifest.
#[derive(Clone, Debug, Eq, PartialEq)]
pub struct RootCandidate {
    pub path: String,
    pub has_manifest: bool,
}

/// The first directory from an index on that holds a manifest.
pub open spec fn first_root(directories: Seq<RootCandidate>, from: int) -> Option<Seq<char>>
    decreases directories.len() - from,
{
    if from < 0 || from >= directories.len() {
        None
    } else if directories[from].has_manifest {
        Some(directories[from].path@)
    } else {
        first_root(directories, from + 1)
    }
}

/// Finds the directory of the manifest among a directory and those above it, the lowest first.
pub fn find_crate_root(current_dir: &str, directories: &Vec<RootCandidate>) -> (root: Result<
    String,
    String,
>)
    ensures
        outcome(root) == match first_root(directories@, 0) {
            Some(path) => Ok(path),
            None => Err(
                "could not find 'Cargo.toml' in '"@ + current_dir@ + "' or any parent directory"@,
            ),
        },
{
    let mut i: usize = 0;
    while i < directories.len()
        invariant
            i <= directories@.len(),
            first_root(directories@, 0) == first_root(directories@, i as int),
        decreases directories@.len() - i,
    {
        if directories[i].has_manifest {
            return Ok(directories[i].path.clone());
        }
        i += 1;
    }
    let mut error = "could not find 'Cargo.toml' in '".to_string();
    error.append(current_dir);
    error.append("' or any parent directory");
    Err(error)
}

// ---------------------------------------------------------------------------
// Laws
// ---------------------------------------------------------------------------

proof fn parts_are_kept(pieces: Seq<Seq<char>>, count: int)
    requires
        0 <= count <= pieces.len(),
    ensures
        path_parts(pieces, count) == pieces.take(count).filter(
            |piece: Seq<char>| piece.len() > 0 && piece != seq!['.'],
        ),
    decreases count,
{
    reveal(Seq::filter);
    reveal_strlit(".");
    assert("."@ =~= seq!['.']);
    if count > 0 {
        parts_are_kept(pieces, count - 1);
        assert(pieces.take(count).drop_last() =~= pieces.take(count - 1));
        assert(pieces.take(count).last() == pieces[count - 1]);
    }
}

proof fn filter_of_both(left: Seq<Seq<char>>, right: Seq<Seq<char>>)
    ensures
        (left + right).filter(|piece: Seq<char>| piece.len() > 0 && piece != seq!['.'])
            == left.filter(|piece: Seq<char>| piece.len() > 0 && piece != seq!['.'])
            + right.filter(|piece: Seq<char>| piece.len() > 0 && piece != seq!['.']),
    decreases right.len(),
{
    reveal(Seq::filter);
    let keep = |piece: Seq<char>| piece.len() > 0 && piece != seq!['.'];
    if right.len() > 0 {
        filter_of_both(left, right.drop_last());
        assert((left + right).drop_last() =~= left + right.drop_last());
        assert((left + right).filter(keep) =~= left.filter(keep) + right.filter(keep));
    } else {
        assert(left + right =~= left);
        assert(left.filter(keep) + right.filter(keep) =~= left.filter(keep));
    }
}

/// The parts of a path are those of a directory and those of a path in it; a name is one part,
/// and a dot is none.
pub proof fn parts_of_paths_join(directory: Seq<char>, path: Seq<char>, name: Seq<char>)
    requires
        name.len() > 0,
        is_free_of(name, '/'),
    ensures
        parts_of(directory + seq!['/'] + path) == parts_of(directory) + parts_of(path),
        parts_of(name) == if name == seq!['.'] {
            Seq::<Seq<char>>::empty()
        } else {
            seq![name]
        },
{
    reveal_strlit("/");
    assert("/"@ =~= seq!['/']);
    pieces_of_texts_join(directory, '/', path);
    let whole = pieces_from(directory + seq!['/'] + path, "/"@, 0);
    let left = pieces_from(directory, "/"@, 0);
    let right = pieces_from(path, "/"@, 0);
    parts_are_kept(whole, whole.len() as int);
    parts_are_kept(left, left.len() as int);
    parts_are_kept(right, right.len() as int);
    assert(whole.take(whole.len() as int) =~= whole);
    assert(left.take(left.len() as int) =~= left);
    assert(right.take(right.len() as int) =~= right);
    filter_of_both(left, right);
    pieces_of_texts_join(name, '/', path);
    reveal_strlit(".");
    assert("."@ =~= seq!['.']);
    assert(path_parts(seq![name], 1) =~= if name == seq!['.'] {
        Seq::<Seq<char>>::empty()
    } else {
        seq![name]
    }) by {
        assert(path_parts(seq![name], 0) == Seq::<Seq<char>>::empty());
    }
}

/// A path lies in every directory that it goes through, and in no directory with another name at
/// the same place.
pub proof fn paths_lie_in_their_directories(
    directory: Seq<char>,
    name: Seq<char>,
    path: Seq<char>,
    other: Seq<char>,
)
    requires
        directory.len() > 0,
        name.len() > 0,
        is_free_of(name, '/'),
        name != seq!['.'],
        other.len() > 0,
        is_free_of(other, '/'),
        other != seq!['.'],
        other != name,
    ensures
        path_lies_in(directory + seq!['/'] + path, directory),
        path_lies_in(directory, directory),
        !path_lies_in(directory + seq!['/'] + (name + seq!['/'] + path), directory + seq!['/']
            + other),
        !path_lies_in(directory + seq!['/'] + name, directory + seq!['/'] + other),
{
    reveal_strlit("/");
    let inner = directory + seq!['/'] + path;
    parts_of_paths_join(directory, path, name);
    assert(parts_of(inner).subrange(0, parts_of(directory).len() as int) =~= parts_of(directory));
    assert(inner.subrange(0, 1) =~= directory.subrange(0, 1));
    assert(parts_of(directory).subrange(0, parts_of(directory).len() as int) =~= parts_of(
        directory,
    ));
    let below = name + seq!['/'] + path;
    parts_of_paths_join(name, path, other);
    parts_of_paths_join(directory, below, other);
    parts_of_paths_join(directory, other, other);
    parts_of_paths_join(directory, name, name);
    let count = parts_of(directory).len();
    let wanted = parts_of(directory + seq!['/'] + other);
    assert(wanted[count as int] == other);
    let deep = parts_of(directory + seq!['/'] + below);
    assert(parts_of(below) == seq![name] + parts_of(path));
    assert(deep[count as int] == parts_of(below)[0]);
    assert(deep.subrange(0, wanted.len() as int)[count as int] == name);
    let near = parts_of(directory + seq!['/'] + name);
    assert(near.subrange(0, wanted.len() as int)[count as int] == name);
}

/// Whether a target can be chosen: one of its kinds is asked for, its package does not run
/// another target by default, and no other name is asked for.
pub open spec fn can_be_chosen(
    search: SearchModel,
    package: PackageModel,
    target: ListedModel,
) -> bool {
    &&& exists|kind: KindModel| target.1.contains(kind) && #[trigger] search.kinds.contains(kind)
    &&& package.default_run is None || package.default_run == Some(target.0)
    &&& search.name is None || search.name == Some(target.0)
}

/// Whether a package is looked at: it has the name that is asked for, or else it lies in the
/// directory of the crate.
pub open spec fn is_looked_at(search: SearchModel, package: PackageModel) -> bool {
    if search.package is Some {
        search.package == Some(package.name)
    } else {
        path_lies_in(package.manifest_path, search.crate_root)
    }
}

proof fn shared_kinds_are_common(left: Seq<KindModel>, right: Seq<KindModel>)
    ensures
        share_kind(left, right) <==> exists|kind: KindModel|
            left.contains(kind) && #[trigger] right.contains(kind),
{
    if share_kind(left, right) {
        let (i, j) = choose|i: int, j: int|
            #![trigger left[i], right[j]]
            0 <= i < left.len() && 0 <= j < right.len() && left[i] == right[j];
        assert(left.contains(left[i]) && right.contains(left[i]));
    }
    if exists|kind: KindModel| left.contains(kind) && #[trigger] right.contains(kind) {
        let kind = choose|kind: KindModel| left.contains(kind) && #[trigger] right.contains(kind);
        let i = choose|i: int| 0 <= i < left.len() && left[i] == kind;
        let j = choose|j: int| 0 <= j < right.len() && right[j] == kind;
        assert(left[i] == right[j]);
    }
}

proof fn package_candidates_up_to(search: SearchModel, package: PackageModel, count: int)
    requires
        0 <= count <= package.targets.len(),
    ensures
        package_candidates(search, package, count) == package.targets.take(count).filter(
            |target: ListedModel| can_be_chosen(search, package, target),
        ).map_values(
            |target: ListedModel|
                TargetModel { package: package.name, target: target.0, kind: target.1 },
        ),
    decreases count,
{
    reveal(Seq::filter);
    let chosen = |target: ListedModel| can_be_chosen(search, package, target);
    let made = |target: ListedModel|
        TargetModel { package: package.name, target: target.0, kind: target.1 };
    let targets = package.targets;
    if count > 0 {
        package_candidates_up_to(search, package, count - 1);
        assert(targets.take(count).drop_last() =~= targets.take(count - 1));
        let target = targets[count - 1];
        assert(targets.take(count).last() == target);
        shared_kinds_are_common(target.1, search.kinds);
        let kept = targets.take(count - 1).filter(chosen);
        assert(kept.push(target).map_values(made) =~= kept.map_values(made).push(made(target)));
    } else {
        assert(targets.take(0).filter(chosen).map_values(made) =~= Seq::empty());
    }
}

/// The targets of a package that can be chosen are given in their order, under the package's
/// name.
pub proof fn targets_that_can_be_chosen_are_given(search: SearchModel, package: PackageModel)
    ensures
        package_candidates(search, package, package.targets.len() as int)
            == package.targets.filter(
            |target: ListedModel| can_be_chosen(search, package, target),
        ).map_values(
            |target: ListedModel|
                TargetModel { package: package.name, target: target.0, kind: target.1 },
        ),
{
    package_candidates_up_to(search, package, package.targets.len() as int);
    assert(package.targets.take(package.targets.len() as int) =~= package.targets);
}

proof fn candidates_up_to(search: SearchModel, packages: Seq<PackageModel>, count: int)
    requires
        0 <= count <= packages.len(),
    ensures
        ({
            let found = candidates(search, packages, count);
            let looked = packages.take(count).filter(
                |package: PackageModel| is_looked_at(search, package),
            );
            &&& found.packages == looked.len()
            &&& found.default_run <==> exists|i: int|
                0 <= i < looked.len() && (#[trigger] looked[i]).default_run is Some
            &&& found.targets == looked.map_values(
                |package: PackageModel|
                    package_candidates(search, package, package.targets.len() as int),
            ).flatten()
        }),
    decreases count,
{
    reveal(Seq::filter);
    let keep = |package: PackageModel| is_looked_at(search, package);
    let given = |package: PackageModel|
        package_candidates(search, package, package.targets.len() as int);
    if count > 0 {
        candidates_up_to(search, packages, count - 1);
        let package = packages[count - 1];
        assert(packages.take(count).drop_last() =~= packages.take(count - 1));
        assert(packages.take(count).last() == package);
        let before = packages.take(count - 1).filter(keep);
        let after = packages.take(count).filter(keep);
        if is_looked_at(search, package) {
            assert(after == before.push(package));
            assert(after.map_values(given) =~= before.map_values(given).push(given(package)));
            before.map_values(given).lemma_flatten_push(given(package));
            assert(after[before.len() as int] == package);
            assert forall|i: int| 0 <= i < before.len() implies after[i] == #[trigger] before[i] by {}
            let found = candidates(search, packages, count);
            if found.default_run && package.default_run is None {
                let i = choose|i: int|
                    0 <= i < before.len() && (#[trigger] before[i]).default_run is Some;
                assert(after[i].default_run is Some);
            }
        }
    } else {
        assert(packages.take(0).filter(keep) =~= Seq::empty());
        assert(packages.take(0).filter(keep).map_values(given) =~= Seq::empty());
        assert(Seq::<Seq<TargetModel>>::empty().flatten() =~= Seq::empty());
    }
}

/// The targets of a workspace that can be chosen are those of all packages that are looked at,
/// one package behind the other.
pub proof fn candidates_come_from_all_packages(search: SearchModel, packages: Seq<PackageModel>)
    ensures
        ({
            let found = candidates(search, packages, packages.len() as int);
            let looked = packages.filter(|package: PackageModel| is_looked_at(search, package));
            &&& found.packages == looked.len()
            &&& found.default_run <==> exists|i: int|
                0 <= i < looked.len() && (#[trigger] looked[i]).default_run is Some
            &&& found.targets == looked.map_values(
                |package: PackageModel|
                    package_candidates(search, package, package.targets.len() as int),
            ).flatten()
        }),
{
    candidates_up_to(search, packages, packages.len() as int);
    assert(packages.take(packages.len() as int) =~= packages);
}

/// A target is found just where one package at least is looked at and one target alone can be
/// chosen, and it is that target.
pub proof fn the_only_target_is_found(search: SearchModel, found: CandidatesModel)
    ensures
        unique_target(search, found) is Ok <==> found.packages > 0 && found.targets.len() == 1,
        unique_target(search, found) matches Ok(target) ==> target.target == found.targets[0],
        unique_target(search, found) matches Ok(target) ==> (target.note is None
            <==> found.packages == 1 && found.default_run),
{
}

/// The root of a crate is the first directory that holds a manifest.
pub proof fn nearest_manifest_is_found(directories: Seq<RootCandidate>, from: int)
    requires
        0 <= from <= directories.len(),
    ensures
        match first_root(directories, from) {
            Some(path) => exists|at: int|
                from <= at < directories.len() && (#[trigger] directories[at]).has_manifest
                    && directories[at].path@ == path && forall|i: int|
                    from <= i < at ==> !(#[trigger] directories[i]).has_manifest,
            None => forall|i: int|
                from <= i < directories.len() ==> !(#[trigger] directories[i]).has_manifest,
        },
    decreases directories.len() - from,
{
    if from < directories.len() {
        if directories[from].has_manifest {
            assert(directories[from].path@ == first_root(directories, from)->0);
        } else {
            nearest_manifest_is_found(directories, from + 1);
            if let Some(path) = first_root(directories, from + 1) {
                let at = choose|at: int|
                    from + 1 <= at < directories.len() && (#[trigger] directories[at]).has_manifest
                        && directories[at].path@ == path && forall|i: int|
                        from + 1 <= i < at ==> !(#[trigger] directories[i]).has_manifest;
                assert(directories[at].has_manifest && directories[at].path@ == path);
            }
        }
    }
}

} // verus!
