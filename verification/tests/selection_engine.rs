use release_automation::changes::{FileEntry, HistoryError, HistoryStore, Revision};
use release_automation::criteria::SelectionCriteria;
use release_automation::flags::CrateStateFlags::{
    ChangedSincePreviousRelease, IsWorkspaceDependency, IsWorkspaceDevDependency, Matched,
    MissingChangelog, MissingReadme, UnreleasableViaChangelogFrontmatter,
};
use release_automation::flags::FlagSet;
use release_automation::graph::{LoadError, PackageGraph};
use release_automation::package::{
    ChangelogStatus, Dependency, DependencyKind, EdgeFilter, Package,
};
use release_automation::selection::{
    candidates, crate_states, marks_of, select_release, BlockedCrate, SelectionError,
};
use release_automation::workspace::{ReleaseWorkspace, WorkspaceError};

fn edge(name: &str, kind: DependencyKind, optional: bool) -> Dependency {
    Dependency { name: name.to_string(), kind, optional }
}

fn normal(name: &str) -> Dependency {
    edge(name, DependencyKind::Normal, false)
}

fn package(name: &str, dependencies: Vec<Dependency>) -> Package {
    Package {
        name: name.to_string(),
        version: "0.0.1".to_string(),
        root: format!("/ws/crates/crate_{}", name),
        readme: true,
        changelog: ChangelogStatus::Releasable,
        dependencies,
    }
}

fn scenario() -> Vec<Package> {
    vec![
        package("g", vec![]),
        package("b", vec![]),
        package("a", vec![normal("b"), normal("c")]),
        package("c", vec![normal("b")]),
        package("e", vec![]),
    ]
}

fn changed(names: &[&str]) -> Vec<String> {
    names.iter().map(|name| format!("/ws/crates/crate_{}/src/lib.rs", name)).collect()
}

fn criteria(filter: &str, dev: FlagSet, selection: FlagSet) -> SelectionCriteria {
    SelectionCriteria::try_new(filter.to_string(), vec![], vec![], dev, selection, false).unwrap()
}

fn matching(filter: &str) -> SelectionCriteria {
    criteria(filter, FlagSet::empty(), FlagSet::empty())
}

fn selected_names(workspace: &ReleaseWorkspace) -> Vec<String> {
    workspace.graph().names(&workspace.release_selection().unwrap())
}

#[test]
fn selection_of_matched_and_changed_packages() {
    let workspace = ReleaseWorkspace::try_new_with_criteria(
        scenario(),
        changed(&["a", "b", "e"]),
        matching("^(a|b|e)$"),
    )
    .unwrap();
    assert_eq!(vec!["g", "b", "c", "a", "e"], workspace.member_names());
    assert_eq!(vec!["b", "a", "e"], selected_names(&workspace));
}

#[test]
fn changed_dependency_of_a_candidate_is_pulled_in() {
    let workspace = ReleaseWorkspace::try_new_with_criteria(
        scenario(),
        changed(&["g", "b", "a", "c", "e"]),
        matching("^(a|b|e)$"),
    )
    .unwrap();
    assert_eq!(vec!["b", "c", "a", "e"], selected_names(&workspace));
    let states = workspace.states();
    // c is not matched: the expansion pulled it in
    assert!(states[3].pulled_in());
    assert!(states[3].selected());
    assert!(states[3].release_eligible());
    // a is matched
    assert!(!states[2].pulled_in());
    assert!(states[2].selected());
    // g is neither
    assert!(!states[0].selected());
    assert!(!states[0].release_eligible());
}

#[test]
fn no_changed_files_no_candidates() {
    let workspace =
        ReleaseWorkspace::try_new_with_criteria(scenario(), vec![], matching(".*")).unwrap();
    assert_eq!(Ok(vec![]), workspace.release_selection());
    let mut blocked = scenario();
    blocked[1].readme = false;
    blocked[2].changelog = ChangelogStatus::Missing;
    let workspace = ReleaseWorkspace::try_new(blocked, vec![]).unwrap();
    assert_eq!(Ok(vec![]), workspace.release_selection());
}

#[test]
fn changes_outside_every_package_select_nothing() {
    let workspace = ReleaseWorkspace::try_new(
        scenario(),
        vec!["/ws/README".to_string(), "/ws/crates/crate_z/src/lib.rs".to_string()],
    )
    .unwrap();
    assert_eq!(Ok(vec![]), workspace.release_selection());
}

#[test]
fn matched_but_unchanged_package_is_no_candidate() {
    let workspace = ReleaseWorkspace::try_new_with_criteria(
        scenario(),
        changed(&["b", "c"]),
        matching("^a$"),
    )
    .unwrap();
    assert_eq!(Vec::<String>::new(), selected_names(&workspace));
    let states = workspace.states();
    assert!(states[2].selected());
    assert!(!states[2].pulled_in());
    assert!(!states[3].selected());
}

#[test]
fn expansion_stops_at_an_unchanged_package() {
    // top -> middle -> bottom; middle has not changed
    let packages = vec![
        package("top", vec![normal("middle")]),
        package("middle", vec![normal("bottom")]),
        package("bottom", vec![]),
    ];
    let workspace = ReleaseWorkspace::try_new_with_criteria(
        packages,
        changed(&["top", "bottom"]),
        matching("^top$"),
    )
    .unwrap();
    assert_eq!(vec!["top"], selected_names(&workspace));
}

#[test]
fn expansion_runs_to_a_fixed_point() {
    // top -> middle -> bottom -> base, all changed, only top matched
    let packages = vec![
        package("top", vec![normal("middle")]),
        package("base", vec![]),
        package("middle", vec![normal("bottom")]),
        package("bottom", vec![normal("base")]),
        package("aside", vec![normal("base")]),
    ];
    let workspace = ReleaseWorkspace::try_new_with_criteria(
        packages,
        changed(&["top", "middle", "bottom", "base", "aside"]),
        matching("^top$"),
    )
    .unwrap();
    assert_eq!(vec!["base", "bottom", "middle", "top"], selected_names(&workspace));
}

#[test]
fn expansion_leaves_excluded_optional_edges_alone() {
    let packages = vec![
        package("top", vec![edge("maybe", DependencyKind::Normal, true), normal("surely")]),
        package("maybe", vec![]),
        package("surely", vec![]),
    ];
    let following = SelectionCriteria::try_new(
        "^top$".to_string(),
        vec![],
        vec![],
        FlagSet::empty(),
        FlagSet::empty(),
        false,
    )
    .unwrap();
    let excluding = SelectionCriteria::try_new(
        "^top$".to_string(),
        vec![],
        vec![],
        FlagSet::empty(),
        FlagSet::empty(),
        true,
    )
    .unwrap();
    let all = changed(&["top", "maybe", "surely"]);
    let workspace =
        ReleaseWorkspace::try_new_with_criteria(packages.clone(), all.clone(), following).unwrap();
    assert_eq!(vec!["maybe", "surely", "top"], selected_names(&workspace));
    let workspace = ReleaseWorkspace::try_new_with_criteria(packages, all, excluding).unwrap();
    assert_eq!(vec!["surely", "top"], selected_names(&workspace));
}

#[test]
fn blocked_candidates_fail_the_whole_run() {
    let mut packages = scenario();
    packages[1].readme = false; // b
    packages[3].changelog = ChangelogStatus::Unreleasable; // c
    packages[3].readme = false;
    packages[0].changelog = ChangelogStatus::Missing; // g, no candidate
    let workspace = ReleaseWorkspace::try_new_with_criteria(
        packages,
        changed(&["g", "b", "a", "c", "e"]),
        matching("^(a|b|e)$"),
    )
    .unwrap();
    let error = workspace.release_selection().unwrap_err();
    assert_eq!(
        SelectionError {
            blocked: vec![
                BlockedCrate {
                    package: 1,
                    name: "b".to_string(),
                    blockers: FlagSet::from_flags(&[MissingReadme]),
                },
                BlockedCrate {
                    package: 3,
                    name: "c".to_string(),
                    blockers: FlagSet::from_flags(&[MissingReadme, UnreleasableViaChangelogFrontmatter]),
                },
            ],
        },
        error
    );
    assert_eq!(
        "the following crates are blocked but required for the release:\n\
         b: MissingReadme\n\
         c: MissingReadme UnreleasableViaChangelogFrontmatter",
        error.message()
    );
}

#[test]
fn allow_lists_cover_blockers_by_role() {
    // app -> lib (normal), app -> testkit (development)
    let mut lib = package("lib", vec![]);
    lib.readme = false;
    let mut testkit = package("testkit", vec![]);
    testkit.changelog = ChangelogStatus::Missing;
    let packages = vec![
        package(
            "app",
            vec![normal("lib"), edge("testkit", DependencyKind::Development, false)],
        ),
        lib,
        testkit,
    ];
    let all = changed(&["app", "lib", "testkit"]);

    let strict = matching("^app$");
    let workspace =
        ReleaseWorkspace::try_new_with_criteria(packages.clone(), all.clone(), strict).unwrap();
    let error = workspace.release_selection().unwrap_err();
    assert_eq!(vec![1, 2], error.blocked.iter().map(|entry| entry.package).collect::<Vec<_>>());

    // each list covers the blocker of the package in its own role
    let lenient = criteria(
        "^app$",
        FlagSet::from_flags(&[MissingChangelog]),
        FlagSet::from_flags(&[MissingReadme]),
    );
    let workspace =
        ReleaseWorkspace::try_new_with_criteria(packages.clone(), all.clone(), lenient).unwrap();
    assert_eq!(vec!["lib", "testkit", "app"], selected_names(&workspace));

    // and not that of the other role
    let crossed = criteria(
        "^app$",
        FlagSet::from_flags(&[MissingReadme]),
        FlagSet::from_flags(&[MissingChangelog]),
    );
    let workspace = ReleaseWorkspace::try_new_with_criteria(packages, all, crossed).unwrap();
    let error = workspace.release_selection().unwrap_err();
    assert_eq!(
        vec![
            BlockedCrate {
                package: 1,
                name: "lib".to_string(),
                blockers: FlagSet::from_flags(&[MissingReadme]),
            },
            BlockedCrate {
                package: 2,
                name: "testkit".to_string(),
                blockers: FlagSet::from_flags(&[MissingChangelog]),
            },
        ],
        error.blocked
    );
}

#[test]
fn blocked_package_outside_the_candidates_does_not_fail_the_run() {
    let mut packages = scenario();
    packages[0].readme = false; // g: unmatched
    packages[3].changelog = ChangelogStatus::Missing; // c: unchanged
    let workspace = ReleaseWorkspace::try_new_with_criteria(
        packages,
        changed(&["g", "a", "b", "e"]),
        matching("^(a|b|e)$"),
    )
    .unwrap();
    assert_eq!(vec!["b", "a", "e"], selected_names(&workspace));
    let states = workspace.states();
    assert!(states[0].blocked());
    assert!(states[3].blocked());
}

#[test]
fn selection_from_given_flags() {
    let graph = PackageGraph::try_new(scenario()).unwrap();
    let policy = criteria("unused", FlagSet::empty(), FlagSet::from_flags(&[MissingReadme]));
    let flags = vec![
        FlagSet::from_flags(&[ChangedSincePreviousRelease]),
        FlagSet::from_flags(&[ChangedSincePreviousRelease, IsWorkspaceDependency, MissingReadme]),
        FlagSet::from_flags(&[Matched, ChangedSincePreviousRelease]),
        FlagSet::from_flags(&[IsWorkspaceDependency]),
        FlagSet::from_flags(&[Matched]),
    ];
    assert_eq!(vec![false, false, true, false, true], marks_of(&flags, Matched));
    assert_eq!(
        vec![false, true, true, false, false],
        candidates(&graph, &flags, EdgeFilter::all())
    );
    assert_eq!(
        vec![false, false, true, false, false],
        candidates(&graph, &flags, EdgeFilter::none())
    );
    assert_eq!(Ok(vec![1, 2]), select_release(&graph, &policy, &flags));
    let states = crate_states(&graph, &policy, &flags);
    assert_eq!(
        vec![false, true, false, false, false],
        states.iter().map(|state| state.pulled_in()).collect::<Vec<_>>()
    );
    // the last package is matched and unblocked: eligible, though unchanged and so no candidate
    assert_eq!(
        vec![false, true, true, false, true],
        states.iter().map(|state| state.release_eligible()).collect::<Vec<_>>()
    );

    let strict = criteria("unused", FlagSet::from_flags(&[MissingReadme]), FlagSet::empty());
    let error = select_release(&graph, &strict, &flags).unwrap_err();
    assert_eq!(1, error.blocked.len());
    assert_eq!(1, error.blocked[0].package);

    // flagged as a development dependency, the same package is held to the other list
    let mut as_dev = flags.clone();
    as_dev[1].insert(IsWorkspaceDevDependency);
    assert_eq!(Ok(vec![1, 2]), select_release(&graph, &strict, &as_dev));
    assert!(select_release(&graph, &policy, &as_dev).is_err());
}

#[test]
fn error_text_of_no_blocked_crate_still_says_blocked() {
    let error = SelectionError { blocked: vec![] };
    assert_eq!(
        "the following crates are blocked but required for the release:",
        error.message()
    );
    assert!(error.message().contains("blocked"));
}

#[test]
fn workspace_from_history() {
    let store = HistoryStore::Readable(vec![
        Revision {
            id: "v1".to_string(),
            files: vec![
                FileEntry { path: "crates/crate_a/src/lib.rs".to_string(), blob: "1".to_string() },
                FileEntry { path: "crates/crate_b/src/lib.rs".to_string(), blob: "1".to_string() },
            ],
        },
        Revision {
            id: "v2".to_string(),
            files: vec![
                FileEntry { path: "crates/crate_a/src/lib.rs".to_string(), blob: "2".to_string() },
                FileEntry { path: "crates/crate_b/src/lib.rs".to_string(), blob: "1".to_string() },
                FileEntry { path: "crates/crate_e/src/lib.rs".to_string(), blob: "1".to_string() },
            ],
        },
    ]);
    let root = "/ws".to_string();
    let from = |before: &str, after: &str, packages: Vec<Package>, store: &HistoryStore| {
        ReleaseWorkspace::try_from_history(
            packages,
            matching(".*"),
            &root,
            store,
            &before.to_string(),
            &after.to_string(),
        )
    };

    let workspace = from("v1", "v2", scenario(), &store).unwrap();
    assert_eq!(
        &vec![
            "/ws/crates/crate_a/src/lib.rs".to_string(),
            "/ws/crates/crate_e/src/lib.rs".to_string()
        ],
        workspace.changes()
    );
    assert_eq!(vec!["a", "e"], selected_names(&workspace));
    assert_eq!(
        vec![
            FlagSet::from_flags(&[Matched]),
            FlagSet::from_flags(&[Matched, IsWorkspaceDependency]),
            FlagSet::from_flags(&[Matched, ChangedSincePreviousRelease]),
            FlagSet::from_flags(&[Matched, IsWorkspaceDependency]),
            FlagSet::from_flags(&[Matched, ChangedSincePreviousRelease]),
        ],
        workspace.flags()
    );

    let unchanged = from("v2", "v2", scenario(), &store).unwrap();
    assert!(unchanged.changes().is_empty());
    assert_eq!(Ok(vec![]), unchanged.release_selection());

    assert_eq!(
        WorkspaceError::History(HistoryError::RevisionNotFound),
        from("v1", "v3", scenario(), &store).unwrap_err()
    );
    assert_eq!(
        WorkspaceError::History(HistoryError::HistoryUnavailable),
        from("v1", "v2", scenario(), &HistoryStore::Unreadable).unwrap_err()
    );
    let mut cyclic = scenario();
    cyclic[1].dependencies.push(normal("a"));
    assert_eq!(
        WorkspaceError::Load(LoadError::CyclicDependency),
        from("v1", "v3", cyclic, &HistoryStore::Unreadable).unwrap_err()
    );
}

#[test]
fn malformed_workspace_never_reaches_selection() {
    let mut packages = scenario();
    packages.push(package("g", vec![]));
    assert_eq!(
        LoadError::DuplicateName,
        ReleaseWorkspace::try_new(packages, changed(&["g"])).unwrap_err()
    );
}
