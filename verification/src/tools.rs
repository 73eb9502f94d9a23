//! The outside tools that profiles need.

use vstd::prelude::*;

verus! {

/// Where a tool comes from.
#[derive(Clone, Copy, Debug, Eq, PartialEq, Structural)]
pub enum ToolSource {
    NixManaged,
    AppleProvided,
}

/// A tool by its name.
#[derive(Clone, Debug, Eq, PartialEq)]
pub struct ToolSpec {
    pub name: String,
    pub source: ToolSource,
}

/// A tool: its name and where it comes from.
pub type ToolModel = (Seq<char>, ToolSource);

impl View for ToolSpec {
    type V = ToolModel;

    open spec fn view(&self) -> ToolModel {
        (self.name@, self.source)
    }
}

impl ToolSpec {
    /// A tool that Nix provides.
    #[must_use]
    pub fn nix_managed(name: &str) -> (tool: ToolSpec)
        ensures
            tool@ == (name@, ToolSource::NixManaged),
    {
        ToolSpec { name: name.to_string(), source: ToolSource::NixManaged }
    }

    /// A tool that comes with macOS.
    #[must_use]
    pub fn apple_provided(name: &str) -> (tool: ToolSpec)
        ensures
            tool@ == (name@, ToolSource::AppleProvided),
    {
        ToolSpec { name: name.to_string(), source: ToolSource::AppleProvided }
    }
}

} // verus!
