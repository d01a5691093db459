//! The diagnostic flags of every package, from its attributes, the change
//! set and the selection policy.

use crate::criteria::SelectionCriteria;
use crate::flags::{CrateStateFlags, FlagSet};
use crate::graph::{lemma_connected_unrestricted, PackageGraph};
use crate::outside::{
    match_outcome, pattern_matches, requirement_admits, requirement_outcome, text_starts_with,
};
use crate::package::{ChangelogStatus, EdgeFilter, Package};
use crate::topology::depends_transitively;
use vstd::prelude::*;

verus! {

/// What the flags of one package are computed from.
#[derive(Clone, Copy, PartialEq, Eq, Debug, Structural)]
pub struct PackageFacts {
    /// The match filter is found in the package's name.
    pub matched: bool,
    /// A changed path lies under the package's root.
    pub changed: bool,
    /// Some matched package depends on the package, directly or indirectly.
    pub dependency_of_matched: bool,
    /// Some matched package depends on it along normal edges alone.
    pub normal_dependency_of_matched: bool,
    /// A valid readme is present.
    pub readme: bool,
    pub changelog: ChangelogStatus,
    /// The version lies in a range of the disallowed list.
    pub disallowed_version: bool,
    /// The version lies in a range of the enforced list.
    pub enforced_version: bool,
}

/// The flags that follow from `facts`. Each flag is decided on its own.
pub open spec fn flags_of(facts: PackageFacts) -> Set<CrateStateFlags> {
    Set::new(
        |flag: CrateStateFlags|
            match flag {
                CrateStateFlags::Matched => facts.matched,
                CrateStateFlags::ChangedSincePreviousRelease => facts.changed,
                CrateStateFlags::IsWorkspaceDependency => facts.dependency_of_matched,
                CrateStateFlags::IsWorkspaceDevDependency => facts.dependency_of_matched
                    && !facts.normal_dependency_of_matched,
                CrateStateFlags::MissingReadme => !facts.readme,
                CrateStateFlags::MissingChangelog => facts.changelog == ChangelogStatus::Missing,
                CrateStateFlags::UnreleasableViaChangelogFrontmatter => facts.changelog
                    == ChangelogStatus::Unreleasable,
                CrateStateFlags::DisallowedVersionReqViolated => facts.disallowed_version,
                CrateStateFlags::EnforcedVersionReqViolated => facts.enforced_version,
            },
    )
}

/// The pattern is found in `name`.
pub open spec fn is_matched_name(pattern: Seq<char>, name: Seq<char>) -> bool {
    match_outcome(pattern, name) == Some(true)
}

/// Some path of `changes` has `root` as a prefix.
pub open spec fn is_under(changes: Seq<String>, root: Seq<char>) -> bool {
    exists|c: int| 0 <= c < changes.len() && root.is_prefix_of((#[trigger] changes[c])@)
}

/// Some requirement of the list admits `version`.
pub open spec fn violates_any(requirements: Seq<String>, version: Seq<char>) -> bool {
    exists|r: int|
        0 <= r < requirements.len() && requirement_outcome((#[trigger] requirements[r])@, version)
            == Some(true)
}

/// Some matched package depends on package `i`, directly or indirectly,
/// along edges that `filter` admits.
pub open spec fn matched_depends_on(
    pkgs: Seq<Package>,
    pattern: Seq<char>,
    filter: EdgeFilter,
    i: int,
) -> bool {
    exists|m: int|
        0 <= m < pkgs.len() && is_matched_name(pattern, pkgs[m].name@)
            && #[trigger] depends_transitively(pkgs, m, i, filter)
}

/// The facts about package `i` under the policy `criteria` and the change set
/// `changes`.
pub open spec fn facts_of(
    pkgs: Seq<Package>,
    criteria: SelectionCriteria,
    changes: Seq<String>,
    i: int,
) -> PackageFacts {
    PackageFacts {
        matched: is_matched_name(criteria.pattern(), pkgs[i].name@),
        changed: is_under(changes, pkgs[i].root@),
        dependency_of_matched: matched_depends_on(pkgs, criteria.pattern(), criteria.traversal(), i),
        normal_dependency_of_matched: matched_depends_on(
            pkgs,
            criteria.pattern(),
            criteria.normal_traversal(),
            i,
        ),
        readme: pkgs[i].readme,
        changelog: pkgs[i].changelog,
        disallowed_version: violates_any(criteria.disallowed(), pkgs[i].version@),
        enforced_version: violates_any(criteria.enforced(), pkgs[i].version@),
    }
}

/// The diagnostic flags of package `i`.
pub open spec fn diagnostic_flags(
    pkgs: Seq<Package>,
    criteria: SelectionCriteria,
    changes: Seq<String>,
    i: int,
) -> Set<CrateStateFlags> {
    flags_of(facts_of(pkgs, criteria, changes, i))
}

/// The flags that follow from `facts`.
pub fn flags_from_facts(facts: &PackageFacts) -> (r: FlagSet)
    ensures
        r@ == flags_of(*facts),
{
    let r = FlagSet::empty().with_if(CrateStateFlags::Matched, facts.matched).with_if(
        CrateStateFlags::ChangedSincePreviousRelease,
        facts.changed,
    ).with_if(CrateStateFlags::IsWorkspaceDependency, facts.dependency_of_matched).with_if(
        CrateStateFlags::IsWorkspaceDevDependency,
        facts.dependency_of_matched && !facts.normal_dependency_of_matched,
    ).with_if(CrateStateFlags::MissingReadme, !facts.readme).with_if(
        CrateStateFlags::MissingChangelog,
        match facts.changelog {
            ChangelogStatus::Missing => true,
            _ => false,
        },
    ).with_if(
        CrateStateFlags::UnreleasableViaChangelogFrontmatter,
        match facts.changelog {
            ChangelogStatus::Unreleasable => true,
            _ => false,
        },
    ).with_if(CrateStateFlags::DisallowedVersionReqViolated, facts.disallowed_version).with_if(
        CrateStateFlags::EnforcedVersionReqViolated,
        facts.enforced_version,
    );
    assert(r@ =~= flags_of(*facts));
    r
}

/// Whether some path of `changes` lies under `root`.
pub fn lies_under(changes: &Vec<String>, root: &String) -> (r: bool)
    ensures
        r == is_under(changes@, root@),
{
    let n = changes.len();
    let mut c: usize = 0;
    while c < n
        invariant
            n == changes@.len(),
            c <= n,
            forall|j: int| 0 <= j < c ==> !root@.is_prefix_of((#[trigger] changes@[j])@),
        decreases n - c,
    {
        if text_starts_with(changes[c].as_str(), root.as_str()) {
            return true;
        }
        c += 1;
    }
    false
}

/// Whether some requirement of the list admits `version`.
pub fn violates(requirements: &Vec<String>, version: &String) -> (r: bool)
    ensures
        r == violates_any(requirements@, version@),
{
    let n = requirements.len();
    let mut i: usize = 0;
    while i < n
        invariant
            n == requirements@.len(),
            i <= n,
            forall|j: int|
                0 <= j < i ==> requirement_outcome((#[trigger] requirements@[j])@, version@)
                    != Some(true),
        decreases n - i,
    {
        match requirement_admits(requirements[i].as_str(), version.as_str()) {
            Some(true) => {
                return true;
            },
            _ => {},
        }
        i += 1;
    }
    false
}

/// For every package, whether the match filter is found in its name.
pub fn matched_packages(graph: &PackageGraph, criteria: &SelectionCriteria) -> (r: Vec<bool>)
    ensures
        r@.len() == graph@.len(),
        forall|i: int|
            0 <= i < graph@.len() ==> r@[i] == is_matched_name(
                criteria.pattern(),
                (#[trigger] graph@[i]).name@,
            ),
{
    let n = graph.len();
    let mut r: Vec<bool> = Vec::new();
    let mut i: usize = 0;
    while i < n
        invariant
            n == graph@.len(),
            i <= n,
            r@.len() == i,
            forall|j: int|
                0 <= j < i ==> r@[j] == is_matched_name(
                    criteria.pattern(),
                    (#[trigger] graph@[j]).name@,
                ),
        decreases n - i,
    {
        let found = match pattern_matches(
            criteria.match_filter().as_str(),
            graph.package(i).name.as_str(),
        ) {
            Some(true) => true,
            _ => false,
        };
        r.push(found);
        i += 1;
    }
    r
}

/// Whether some index is marked in both vectors.
pub fn any_in_both(matched: &Vec<bool>, marks: &Vec<bool>) -> (r: bool)
    requires
        matched@.len() == marks@.len(),
    ensures
        r == exists|m: int| 0 <= m < matched@.len() && matched@[m] && #[trigger] marks@[m],
{
    let n = matched.len();
    let mut m: usize = 0;
    while m < n
        invariant
            n == matched@.len(),
            n == marks@.len(),
            m <= n,
            forall|j: int| 0 <= j < m ==> !(matched@[j] && #[trigger] marks@[j]),
        decreases n - m,
    {
        if matched[m] && marks[m] {
            return true;
        }
        m += 1;
    }
    false
}

/// Whether some package marked in `matched` depends on `package`, directly or
/// indirectly, along edges that `filter` admits.
fn is_dependency_of_marked(
    graph: &PackageGraph,
    matched: &Vec<bool>,
    everyone: &Vec<bool>,
    package: usize,
    filter: EdgeFilter,
) -> (r: bool)
    requires
        graph.wf(),
        package < graph@.len(),
        matched@.len() == graph@.len(),
        everyone@.len() == graph@.len(),
        forall|i: int| 0 <= i < everyone@.len() ==> everyone@[i],
    ensures
        r == exists|m: int|
            0 <= m < graph@.len() && matched@[m] && #[trigger] depends_transitively(
                graph@,
                m,
                package as int,
                filter,
            ),
{
    let marks = graph.connected_to(package, filter, everyone);
    let r = any_in_both(matched, &marks);
    proof {
        assert forall|m: int| 0 <= m < graph@.len() implies marks@[m] == depends_transitively(
            graph@,
            m,
            package as int,
            filter,
        ) by {
            lemma_connected_unrestricted(graph@, m, package as int, filter, everyone@);
        }
        if r {
            let m = choose|m: int| 0 <= m < matched@.len() && matched@[m] && #[trigger] marks@[m];
            assert(depends_transitively(graph@, m, package as int, filter));
        }
        if exists|m: int|
            0 <= m < graph@.len() && matched@[m] && #[trigger] depends_transitively(
                graph@,
                m,
                package as int,
                filter,
            ) {
            let m = choose|m: int|
                0 <= m < graph@.len() && matched@[m] && #[trigger] depends_transitively(
                    graph@,
                    m,
                    package as int,
                    filter,
                );
            assert(marks@[m]);
        }
    }
    r
}

/// The facts about every package of the graph.
pub fn package_facts(graph: &PackageGraph, criteria: &SelectionCriteria, changes: &Vec<String>) -> (r:
    Vec<PackageFacts>)
    requires
        graph.wf(),
    ensures
        r@.len() == graph@.len(),
        forall|i: int|
            0 <= i < graph@.len() ==> #[trigger] r@[i] == facts_of(graph@, *criteria, changes@, i),
{
    let n = graph.len();
    let matched = matched_packages(graph, criteria);
    let everyone: Vec<bool> = vec![true; n];
    let mut r: Vec<PackageFacts> = Vec::new();
    let mut i: usize = 0;
    while i < n
        invariant
            graph.wf(),
            n == graph@.len(),
            i <= n,
            matched@.len() == n,
            forall|j: int|
                0 <= j < n ==> matched@[j] == is_matched_name(
                    criteria.pattern(),
                    (#[trigger] graph@[j]).name@,
                ),
            everyone@.len() == n,
            forall|j: int| 0 <= j < n ==> everyone@[j],
            r@.len() == i,
            forall|j: int|
                0 <= j < i ==> #[trigger] r@[j] == facts_of(graph@, *criteria, changes@, j),
        decreases n - i,
    {
        let package = graph.package(i);
        let dependency = is_dependency_of_marked(
            graph,
            &matched,
            &everyone,
            i,
            criteria.traversal_filter(),
        );
        let normal_dependency = is_dependency_of_marked(
            graph,
            &matched,
            &everyone,
            i,
            criteria.normal_traversal_filter(),
        );
        proof {
            lemma_marked_is_matched(graph@, criteria.pattern(), matched@, criteria.traversal(), i as int);
            lemma_marked_is_matched(
                graph@,
                criteria.pattern(),
                matched@,
                criteria.normal_traversal(),
                i as int,
            );
        }
        let facts = PackageFacts {
            matched: matched[i],
            changed: lies_under(changes, &package.root),
            dependency_of_matched: dependency,
            normal_dependency_of_matched: normal_dependency,
            readme: package.readme,
            changelog: package.changelog,
            disallowed_version: violates(criteria.disallowed_version_reqs(), &package.version),
            enforced_version: violates(criteria.enforced_version_reqs(), &package.version),
        };
        r.push(facts);
        i += 1;
    }
    r
}

proof fn lemma_marked_is_matched(
    pkgs: Seq<Package>,
    pattern: Seq<char>,
    matched: Seq<bool>,
    filter: EdgeFilter,
    i: int,
)
    requires
        matched.len() == pkgs.len(),
        forall|j: int|
            0 <= j < pkgs.len() ==> matched[j] == is_matched_name(pattern, (#[trigger] pkgs[j]).name@),
    ensures
        matched_depends_on(pkgs, pattern, filter, i) == exists|m: int|
            0 <= m < pkgs.len() && matched[m] && #[trigger] depends_transitively(pkgs, m, i, filter),
{
    if matched_depends_on(pkgs, pattern, filter, i) {
        let m = choose|m: int|
            0 <= m < pkgs.len() && is_matched_name(pattern, pkgs[m].name@)
                && #[trigger] depends_transitively(pkgs, m, i, filter);
        assert(matched[m] == is_matched_name(pattern, pkgs[m].name@));
    }
    if exists|m: int|
        0 <= m < pkgs.len() && matched[m] && #[trigger] depends_transitively(pkgs, m, i, filter) {
        let m = choose|m: int|
            0 <= m < pkgs.len() && matched[m] && #[trigger] depends_transitively(pkgs, m, i, filter);
        assert(matched[m] == is_matched_name(pattern, pkgs[m].name@));
    }
}

/// The diagnostic flags of every package of the graph.
pub fn evaluate(graph: &PackageGraph, criteria: &SelectionCriteria, changes: &Vec<String>) -> (r:
    Vec<FlagSet>)
    requires
        graph.wf(),
    ensures
        r@.len() == graph@.len(),
        forall|i: int|
            0 <= i < graph@.len() ==> (#[trigger] r@[i])@ == diagnostic_flags(
                graph@,
                *criteria,
                changes@,
                i,
            ),
{
    let facts = package_facts(graph, criteria, changes);
    let n = facts.len();
    let mut r: Vec<FlagSet> = Vec::new();
    let mut i: usize = 0;
    while i < n
        invariant
            n == graph@.len(),
            n == facts@.len(),
            i <= n,
            forall|j: int|
                0 <= j < n ==> #[trigger] facts@[j] == facts_of(graph@, *criteria, changes@, j),
            r@.len() == i,
            forall|j: int|
                0 <= j < i ==> (#[trigger] r@[j])@ == diagnostic_flags(
                    graph@,
                    *criteria,
                    changes@,
                    j,
                ),
        decreases n - i,
    {
        r.push(flags_from_facts(&facts[i]));
        i += 1;
    }
    r
}

} // verus!
