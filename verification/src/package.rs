//! The members of a workspace and the edges between them.

use vstd::prelude::*;

verus! {

/// Whether a dependency is needed to build a package or only to develop it.
#[derive(Clone, Copy, PartialEq, Eq, Debug, Hash, Structural)]
pub enum DependencyKind {
    Normal,
    Development,
}

/// One edge to another member of the workspace, named by that member's name.
#[derive(Clone, PartialEq, Eq, Debug)]
pub struct Dependency {
    pub name: String,
    pub kind: DependencyKind,
    pub optional: bool,
}

/// What is known of a package's changelog.
#[derive(Clone, Copy, PartialEq, Eq, Debug, Hash, Structural)]
pub enum ChangelogStatus {
    /// No changelog was found.
    Missing,
    /// The changelog is there, and its leading entry lacks the marker of a
    /// pending release.
    Unreleasable,
    /// The changelog is there and its leading entry carries the marker.
    Releasable,
}

/// One member of the workspace. Its identity is its name.
#[derive(Clone, PartialEq, Eq, Debug)]
pub struct Package {
    pub name: String,
    /// The current version, as semantic-version text.
    pub version: String,
    /// The directory of the package; a changed path under it marks the
    /// package as changed.
    pub root: String,
    /// Whether a valid readme is present.
    pub readme: bool,
    pub changelog: ChangelogStatus,
    /// The edges to other members, in the order of their declaration.
    pub dependencies: Vec<Dependency>,
}

/// Which dependency edges a traversal follows. Normal and development edges
/// are admitted independently of each other; an optional edge of an admitted
/// kind is followed only if `optional` is set.
#[derive(Clone, Copy, PartialEq, Eq, Debug, Hash, Structural)]
pub struct EdgeFilter {
    pub normal: bool,
    pub development: bool,
    pub optional: bool,
}

/// The filter that admits every edge.
pub open spec fn all_edges() -> EdgeFilter {
    EdgeFilter { normal: true, development: true, optional: true }
}

/// The filter that admits no edge.
pub open spec fn no_edges() -> EdgeFilter {
    EdgeFilter { normal: false, development: false, optional: false }
}

impl EdgeFilter {
    /// Whether the filter admits the edge `dependency`.
    pub open spec fn admits(self, dependency: Dependency) -> bool {
        &&& match dependency.kind {
            DependencyKind::Normal => self.normal,
            DependencyKind::Development => self.development,
        }
        &&& (self.optional || !dependency.optional)
    }

    /// The filter that admits every edge.
    pub fn all() -> (r: EdgeFilter)
        ensures
            r == all_edges(),
    {
        EdgeFilter { normal: true, development: true, optional: true }
    }

    /// The filter that admits no edge.
    pub fn none() -> (r: EdgeFilter)
        ensures
            r == no_edges(),
    {
        EdgeFilter { normal: false, development: false, optional: false }
    }

    /// Whether the filter admits the edge `dependency`.
    pub fn test(&self, dependency: &Dependency) -> (r: bool)
        ensures
            r == self.admits(*dependency),
    {
        let kind_admitted = match dependency.kind {
            DependencyKind::Normal => self.normal,
            DependencyKind::Development => self.development,
        };
        kind_admitted && (self.optional || !dependency.optional)
    }
}

} // verus!
