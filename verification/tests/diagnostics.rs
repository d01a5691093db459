use release_automation::criteria::{CriteriaError, SelectionCriteria};
use release_automation::diagnostics::{
    any_in_both, evaluate, flags_from_facts, lies_under, matched_packages, package_facts,
    violates, PackageFacts,
};
use release_automation::flags::CrateStateFlags::{
    ChangedSincePreviousRelease, DisallowedVersionReqViolated, EnforcedVersionReqViolated,
    IsWorkspaceDependency, IsWorkspaceDevDependency, Matched, MissingChangelog, MissingReadme,
    UnreleasableViaChangelogFrontmatter,
};
use release_automation::flags::FlagSet;
use release_automation::graph::PackageGraph;
use release_automation::package::{
    ChangelogStatus, Dependency, DependencyKind, EdgeFilter, Package,
};

fn edge(name: &str, kind: DependencyKind, optional: bool) -> Dependency {
    Dependency { name: name.to_string(), kind, optional }
}

fn package(name: &str, version: &str, dependencies: Vec<Dependency>) -> Package {
    Package {
        name: name.to_string(),
        version: version.to_string(),
        root: format!("/ws/crates/{}", name),
        readme: true,
        changelog: ChangelogStatus::Releasable,
        dependencies,
    }
}

fn strings(texts: &[&str]) -> Vec<String> {
    texts.iter().map(|text| text.to_string()).collect()
}

fn criteria(filter: &str, disallowed: &[&str], enforced: &[&str], exclude_optional: bool) -> SelectionCriteria {
    SelectionCriteria::try_new(
        filter.to_string(),
        strings(disallowed),
        strings(enforced),
        FlagSet::empty(),
        FlagSet::empty(),
        exclude_optional,
    )
    .unwrap()
}

fn plain_facts() -> PackageFacts {
    PackageFacts {
        matched: false,
        changed: false,
        dependency_of_matched: false,
        normal_dependency_of_matched: false,
        readme: true,
        changelog: ChangelogStatus::Releasable,
        disallowed_version: false,
        enforced_version: false,
    }
}

#[test]
fn invalid_match_filter_fails_at_construction() {
    let result = SelectionCriteria::try_new(
        "crate_(a".to_string(),
        vec![],
        vec![],
        FlagSet::empty(),
        FlagSet::empty(),
        false,
    );
    assert_eq!(CriteriaError::InvalidMatchFilter, result.unwrap_err());
}

#[test]
fn invalid_version_requirement_fails_at_construction() {
    let disallowed = SelectionCriteria::try_new(
        ".*".to_string(),
        strings(&[">=1.0.0", "@1.0.0"]),
        vec![],
        FlagSet::empty(),
        FlagSet::empty(),
        false,
    );
    assert_eq!(CriteriaError::InvalidVersionRequirement, disallowed.unwrap_err());
    let enforced = SelectionCriteria::try_new(
        ".*".to_string(),
        vec![],
        strings(&[">a.b"]),
        FlagSet::empty(),
        FlagSet::empty(),
        false,
    );
    assert_eq!(CriteriaError::InvalidVersionRequirement, enforced.unwrap_err());
    // the match filter is looked at first
    let both = SelectionCriteria::try_new(
        "(".to_string(),
        strings(&["@1.0.0"]),
        vec![],
        FlagSet::empty(),
        FlagSet::empty(),
        false,
    );
    assert_eq!(CriteriaError::InvalidMatchFilter, both.unwrap_err());
}

#[test]
fn criteria_keep_what_they_were_given() {
    let dev = FlagSet::from_flags(&[MissingChangelog]);
    let selection = FlagSet::from_flags(&[MissingReadme]);
    let criteria = SelectionCriteria::try_new(
        "crate_.*".to_string(),
        strings(&[">=0.1.0"]),
        strings(&["<0.0.2", "^3"]),
        dev,
        selection,
        true,
    )
    .unwrap();
    assert_eq!("crate_.*", criteria.match_filter());
    assert_eq!(&strings(&[">=0.1.0"]), criteria.disallowed_version_reqs());
    assert_eq!(&strings(&["<0.0.2", "^3"]), criteria.enforced_version_reqs());
    assert_eq!(dev, criteria.allowed_dev_dependency_blockers());
    assert_eq!(selection, criteria.allowed_selection_blockers());
    assert!(criteria.exclude_optional_deps());
    assert_eq!(
        EdgeFilter { normal: true, development: true, optional: false },
        criteria.traversal_filter()
    );
    assert_eq!(
        EdgeFilter { normal: true, development: false, optional: false },
        criteria.normal_traversal_filter()
    );
}

#[test]
fn default_criteria_match_everything_and_allow_nothing() {
    let criteria = SelectionCriteria::default();
    assert_eq!(".*", criteria.match_filter());
    assert!(criteria.disallowed_version_reqs().is_empty());
    assert!(criteria.enforced_version_reqs().is_empty());
    assert!(criteria.allowed_dev_dependency_blockers().is_empty());
    assert!(criteria.allowed_selection_blockers().is_empty());
    assert!(!criteria.exclude_optional_deps());
    assert_eq!(EdgeFilter::all(), criteria.traversal_filter());
}

#[test]
fn flags_follow_from_facts_one_by_one() {
    assert_eq!(FlagSet::empty(), flags_from_facts(&plain_facts()));
    assert_eq!(
        FlagSet::from_flags(&[Matched]),
        flags_from_facts(&PackageFacts { matched: true, ..plain_facts() })
    );
    assert_eq!(
        FlagSet::from_flags(&[ChangedSincePreviousRelease]),
        flags_from_facts(&PackageFacts { changed: true, ..plain_facts() })
    );
    assert_eq!(
        FlagSet::from_flags(&[IsWorkspaceDependency, IsWorkspaceDevDependency]),
        flags_from_facts(&PackageFacts { dependency_of_matched: true, ..plain_facts() })
    );
    assert_eq!(
        FlagSet::from_flags(&[IsWorkspaceDependency]),
        flags_from_facts(&PackageFacts {
            dependency_of_matched: true,
            normal_dependency_of_matched: true,
            ..plain_facts()
        })
    );
    assert_eq!(
        FlagSet::from_flags(&[MissingReadme]),
        flags_from_facts(&PackageFacts { readme: false, ..plain_facts() })
    );
    assert_eq!(
        FlagSet::from_flags(&[MissingChangelog]),
        flags_from_facts(&PackageFacts { changelog: ChangelogStatus::Missing, ..plain_facts() })
    );
    assert_eq!(
        FlagSet::from_flags(&[UnreleasableViaChangelogFrontmatter]),
        flags_from_facts(&PackageFacts { changelog: ChangelogStatus::Unreleasable, ..plain_facts() })
    );
    assert_eq!(
        FlagSet::from_flags(&[DisallowedVersionReqViolated]),
        flags_from_facts(&PackageFacts { disallowed_version: true, ..plain_facts() })
    );
    assert_eq!(
        FlagSet::from_flags(&[EnforcedVersionReqViolated]),
        flags_from_facts(&PackageFacts { enforced_version: true, ..plain_facts() })
    );
}

#[test]
fn a_path_lies_under_a_root_by_prefix() {
    let changes = strings(&["/ws/crates/a/src/lib.rs", "/ws/README"]);
    assert!(lies_under(&changes, &"/ws/crates/a".to_string()));
    assert!(lies_under(&changes, &"/ws".to_string()));
    assert!(lies_under(&changes, &"/ws/README".to_string()));
    assert!(!lies_under(&changes, &"/ws/crates/b".to_string()));
    assert!(!lies_under(&changes, &"/ws/README.md".to_string()));
    assert!(!lies_under(&vec![], &"/ws".to_string()));
    assert!(lies_under(&changes, &"".to_string()));
}

#[test]
fn a_version_violates_a_list_if_one_range_admits_it() {
    let list = strings(&[">=0.1.0", "=0.0.3"]);
    assert!(violates(&list, &"0.1.0".to_string()));
    assert!(violates(&list, &"2.5.7".to_string()));
    assert!(violates(&list, &"0.0.3".to_string()));
    assert!(!violates(&list, &"0.0.1".to_string()));
    assert!(!violates(&list, &"0.0.4".to_string()));
    assert!(!violates(&vec![], &"1.0.0".to_string()));
    // a caret range, and a pre-release outside every range
    assert!(violates(&strings(&["^1.2"]), &"1.9.0".to_string()));
    assert!(!violates(&strings(&["^1.2"]), &"2.0.0".to_string()));
    assert!(!violates(&strings(&[">=0.1.0"]), &"1.0.0-alpha".to_string()));
    // text that is no version or no range violates nothing
    assert!(!violates(&strings(&[">=0.1.0"]), &"one".to_string()));
    assert!(!violates(&strings(&["@@"]), &"1.0.0".to_string()));
}

#[test]
fn the_match_filter_is_searched_in_the_name() {
    let graph = PackageGraph::try_new(vec![
        package("crate_a", "1.0.0", vec![]),
        package("crate_g", "1.0.0", vec![]),
        package("my_crate_e_tools", "1.0.0", vec![]),
        package("other", "1.0.0", vec![]),
    ])
    .unwrap();
    assert_eq!(
        vec![true, false, true, false],
        matched_packages(&graph, &criteria("crate_(b|a|e)", &[], &[], false))
    );
    assert_eq!(
        vec![true, false, false, false],
        matched_packages(&graph, &criteria("^crate_(b|a|e)$", &[], &[], false))
    );
    assert_eq!(
        vec![true, true, true, true],
        matched_packages(&graph, &SelectionCriteria::default())
    );
    // a look-ahead, which only the backtracking engine knows
    assert_eq!(
        vec![false, true, false, false],
        matched_packages(&graph, &criteria("^crate_(?!a)", &[], &[], false))
    );
}

#[test]
fn some_index_marked_in_both() {
    assert!(any_in_both(&vec![false, true, true], &vec![true, false, true]));
    assert!(!any_in_both(&vec![false, true, false], &vec![true, false, true]));
    assert!(!any_in_both(&vec![], &vec![]));
}

#[test]
fn flags_of_every_package() {
    // app -> lib (normal), app -> testkit (development), testkit -> base (normal),
    // app -> extra (normal, optional)
    let mut lib = package("lib", "0.2.0", vec![]);
    lib.readme = false;
    let mut testkit = package("testkit", "0.0.1", vec![edge("base", DependencyKind::Normal, false)]);
    testkit.changelog = ChangelogStatus::Missing;
    let mut base = package("base", "1.0.0", vec![]);
    base.changelog = ChangelogStatus::Unreleasable;
    let graph = PackageGraph::try_new(vec![
        package(
            "app",
            "0.1.5",
            vec![
                edge("lib", DependencyKind::Normal, false),
                edge("testkit", DependencyKind::Development, false),
                edge("extra", DependencyKind::Normal, true),
            ],
        ),
        lib,
        testkit,
        base,
        package("extra", "3.0.0", vec![]),
        package("unrelated", "0.1.0", vec![]),
    ])
    .unwrap();
    let changes = strings(&["/ws/crates/app/src/main.rs", "/ws/crates/base/Cargo.toml"]);

    let with_optional = criteria("^app$", &[">=0.1.0, <0.2.0"], &[">=1.0.0"], false);
    assert_eq!(
        vec![
            FlagSet::from_flags(&[Matched, ChangedSincePreviousRelease, DisallowedVersionReqViolated]),
            FlagSet::from_flags(&[IsWorkspaceDependency, MissingReadme]),
            FlagSet::from_flags(&[IsWorkspaceDependency, IsWorkspaceDevDependency, MissingChangelog]),
            FlagSet::from_flags(&[
                ChangedSincePreviousRelease,
                IsWorkspaceDependency,
                IsWorkspaceDevDependency,
                UnreleasableViaChangelogFrontmatter,
                EnforcedVersionReqViolated,
            ]),
            FlagSet::from_flags(&[IsWorkspaceDependency, EnforcedVersionReqViolated]),
            FlagSet::from_flags(&[DisallowedVersionReqViolated]),
        ],
        evaluate(&graph, &with_optional, &changes)
    );

    let without_optional = criteria("^app$", &[">=0.1.0, <0.2.0"], &[">=1.0.0"], true);
    let flags = evaluate(&graph, &without_optional, &changes);
    assert_eq!(FlagSet::from_flags(&[EnforcedVersionReqViolated]), flags[4]);
    assert_eq!(FlagSet::from_flags(&[IsWorkspaceDependency, MissingReadme]), flags[1]);

    let facts = package_facts(&graph, &with_optional, &changes);
    assert_eq!(
        PackageFacts {
            matched: false,
            changed: true,
            dependency_of_matched: true,
            normal_dependency_of_matched: false,
            readme: true,
            changelog: ChangelogStatus::Unreleasable,
            disallowed_version: false,
            enforced_version: true,
        },
        facts[3]
    );
}

#[test]
fn same_inputs_give_same_flags() {
    let graph = PackageGraph::try_new(vec![
        package("a", "0.1.0", vec![edge("b", DependencyKind::Normal, false)]),
        package("b", "0.1.0", vec![]),
    ])
    .unwrap();
    let twin = PackageGraph::try_new(vec![
        package("a", "0.1.0", vec![edge("b", DependencyKind::Normal, false)]),
        package("b", "0.1.0", vec![]),
    ])
    .unwrap();
    let policy = criteria("a", &["<1"], &[], false);
    let changes = strings(&["/ws/crates/b/x"]);
    assert_eq!(evaluate(&graph, &policy, &changes), evaluate(&twin, &policy, &changes));
    assert_eq!(evaluate(&graph, &policy, &changes), evaluate(&graph, &policy, &changes));
}
