use release_automation::flags::CrateStateFlags::{
    ChangedSincePreviousRelease, DisallowedVersionReqViolated, EnforcedVersionReqViolated,
    IsWorkspaceDependency, IsWorkspaceDevDependency, Matched, MissingChangelog, MissingReadme,
    UnreleasableViaChangelogFrontmatter,
};
use release_automation::flags::{CrateStateFlags, FlagSet};
use release_automation::state::CrateState;

const ALL: [CrateStateFlags; 9] = [
    Matched,
    ChangedSincePreviousRelease,
    IsWorkspaceDependency,
    IsWorkspaceDevDependency,
    MissingReadme,
    MissingChangelog,
    UnreleasableViaChangelogFrontmatter,
    DisallowedVersionReqViolated,
    EnforcedVersionReqViolated,
];

/// The flag set whose members are the flags at the set bits of `bits`.
fn set_of(bits: usize) -> FlagSet {
    let mut set = FlagSet::empty();
    for (position, flag) in ALL.iter().enumerate() {
        if bits & (1 << position) != 0 {
            set.insert(*flag);
        }
    }
    set
}

#[test]
fn flag_set_operations() {
    let a = FlagSet::from_flags(&[Matched, MissingReadme, MissingChangelog]);
    let b = FlagSet::from_flags(&[MissingReadme, EnforcedVersionReqViolated]);
    assert_eq!(FlagSet::from_flags(&[MissingReadme]), a.intersection(b));
    assert_eq!(
        FlagSet::from_flags(&[Matched, MissingReadme, MissingChangelog, EnforcedVersionReqViolated]),
        a.union(b)
    );
    assert_eq!(FlagSet::from_flags(&[Matched, MissingChangelog]), a.difference(b));
    assert!(a.contains(Matched));
    assert!(!a.contains(EnforcedVersionReqViolated));
    assert!(FlagSet::empty().is_empty());
    assert!(!a.is_empty());
    assert!(FlagSet::from_flags(&[MissingReadme]).is_subset_of(&a));
    assert!(!b.is_subset_of(&a));
    assert_eq!(vec![Matched, MissingReadme, MissingChangelog], a.to_vec());
    assert_eq!(a, FlagSet::from_flags(&[MissingChangelog, Matched, MissingReadme, Matched]));
    assert_eq!(a, FlagSet::empty().with(Matched).with(MissingReadme).with(MissingChangelog));
    assert_eq!(a, a.with_if(EnforcedVersionReqViolated, false));
    assert_eq!(a.union(b), a.with_if(EnforcedVersionReqViolated, true));
}

#[test]
fn blocking_subset_is_documentation_and_versions() {
    let blocking = FlagSet::blocking();
    assert_eq!(
        vec![
            MissingReadme,
            MissingChangelog,
            UnreleasableViaChangelogFrontmatter,
            DisallowedVersionReqViolated,
            EnforcedVersionReqViolated,
        ],
        blocking.to_vec()
    );
    for flag in ALL {
        assert_eq!(blocking.contains(flag), flag.is_blocking());
    }
    assert_eq!("UnreleasableViaChangelogFrontmatter", UnreleasableViaChangelogFrontmatter.label());
    assert_eq!("Matched", Matched.label());
}

#[test]
fn role_flags_never_block() {
    let flags = FlagSet::from_flags(&[
        Matched,
        ChangedSincePreviousRelease,
        IsWorkspaceDependency,
        IsWorkspaceDevDependency,
    ]);
    let state = CrateState::new(flags, FlagSet::empty(), FlagSet::empty());
    assert!(state.blocked_by().is_empty());
    assert!(!state.blocked());
    assert!(state.disallowed_blockers().is_empty());
    assert!(state.release_eligible());
}

#[test]
fn blocked_by_is_flags_within_blocking_subset_whatever_the_allow_lists() {
    for bits in 0..512 {
        let flags = set_of(bits);
        let expected = flags.intersection(FlagSet::blocking());
        for allowance in [0, 0b1_0000, 0b1_1111_0000, 0b1_1111_1111] {
            let as_dev = CrateState::new(flags, set_of(allowance), FlagSet::empty());
            let as_selection = CrateState::new(flags, FlagSet::empty(), set_of(allowance));
            assert_eq!(expected, as_dev.blocked_by());
            assert_eq!(expected, as_selection.blocked_by());
            assert_eq!(!expected.is_empty(), as_dev.blocked());
        }
    }
}

#[test]
fn disallowed_blockers_empty_exactly_when_allow_list_covers() {
    for bits in 0..512 {
        let flags = set_of(bits);
        for dev in [0, 0b0_0011_0000, 0b1_1111_0000] {
            for selection in [0, 0b1_1000_0000, 0b1_1111_0000] {
                let state = CrateState::new(flags, set_of(dev), set_of(selection));
                let applicable =
                    if flags.contains(IsWorkspaceDevDependency) { set_of(dev) } else { set_of(selection) };
                assert_eq!(applicable, state.applicable_allow_list());
                assert_eq!(state.blocked_by().difference(applicable), state.disallowed_blockers());
                assert_eq!(
                    state.blocked_by().is_subset_of(&applicable),
                    state.disallowed_blockers().is_empty()
                );
            }
        }
    }
}

#[test]
fn release_eligible_is_selected_and_unblocked() {
    for bits in 0..512 {
        let flags = set_of(bits);
        for pulled_in in [false, true] {
            let state = CrateState::new(flags, FlagSet::empty(), set_of(0b0_0011_0000))
                .with_pulled_in(pulled_in);
            assert_eq!(pulled_in, state.pulled_in());
            assert_eq!(flags.contains(Matched) || pulled_in, state.selected());
            assert_eq!(
                state.selected() && state.disallowed_blockers().is_empty(),
                state.release_eligible()
            );
            if !state.disallowed_blockers().is_empty() {
                assert!(!state.release_eligible());
            }
        }
    }
}

#[test]
fn dev_dependency_uses_the_dev_allow_list_only() {
    let flags = FlagSet::from_flags(&[Matched, IsWorkspaceDevDependency, MissingChangelog]);
    let covered = FlagSet::from_flags(&[MissingChangelog]);
    let by_dev_list = CrateState::new(flags, covered, FlagSet::empty());
    assert!(by_dev_list.disallowed_blockers().is_empty());
    assert!(by_dev_list.release_eligible());
    let by_selection_list = CrateState::new(flags, FlagSet::empty(), covered);
    assert_eq!(covered, by_selection_list.disallowed_blockers());
    assert!(by_selection_list.selected());
    assert!(!by_selection_list.release_eligible());
}

#[test]
fn unselected_package_is_not_eligible() {
    let state = CrateState::new(
        FlagSet::from_flags(&[ChangedSincePreviousRelease, IsWorkspaceDependency]),
        FlagSet::empty(),
        FlagSet::empty(),
    );
    assert!(!state.selected());
    assert!(!state.release_eligible());
    assert!(state.with_pulled_in(true).release_eligible());
    assert_eq!(
        FlagSet::from_flags(&[ChangedSincePreviousRelease, IsWorkspaceDependency]),
        state.flags()
    );
    assert!(state.contains(IsWorkspaceDependency));
    assert!(!state.contains(Matched));
}
