//! The verdict on one package: what blocks it, and whether it is released.

use crate::flags::{blocking_subset, CrateStateFlags, FlagSet};
use vstd::prelude::*;

verus! {

/// The blocking flags among `flags`.
pub open spec fn blockers_in(flags: Set<CrateStateFlags>) -> Set<CrateStateFlags> {
    flags.intersect(blocking_subset())
}

/// The allow-list that applies to a package with the flags `flags`: that for
/// development dependencies if it is flagged as one, else that for selected
/// packages.
pub open spec fn allow_list_for(
    flags: Set<CrateStateFlags>,
    dev_dependency_allowance: Set<CrateStateFlags>,
    selection_allowance: Set<CrateStateFlags>,
) -> Set<CrateStateFlags> {
    if flags.contains(CrateStateFlags::IsWorkspaceDevDependency) {
        dev_dependency_allowance
    } else {
        selection_allowance
    }
}

/// The blocking flags among `flags` that the applicable allow-list does not
/// cover.
pub open spec fn uncovered_blockers(
    flags: Set<CrateStateFlags>,
    dev_dependency_allowance: Set<CrateStateFlags>,
    selection_allowance: Set<CrateStateFlags>,
) -> Set<CrateStateFlags> {
    blockers_in(flags).difference(
        allow_list_for(flags, dev_dependency_allowance, selection_allowance),
    )
}

/// The verdict on one package, derived from its diagnostic flags, the two
/// allow-lists of the policy, and whether the expansion along the dependency
/// graph pulled the package into the release set.
#[derive(Clone, Copy, PartialEq, Eq, Debug, Structural)]
pub struct CrateState {
    flags: FlagSet,
    allowed_dev_dependency_blockers: FlagSet,
    allowed_selection_blockers: FlagSet,
    pulled_in: bool,
}

impl CrateState {
    /// The diagnostic flags of the package.
    pub closed spec fn flag_set(self) -> Set<CrateStateFlags> {
        self.flags@
    }

    /// The allow-list for packages that are only development dependencies.
    pub closed spec fn dev_dependency_allowance(self) -> Set<CrateStateFlags> {
        self.allowed_dev_dependency_blockers@
    }

    /// The allow-list for matched packages and release dependencies.
    pub closed spec fn selection_allowance(self) -> Set<CrateStateFlags> {
        self.allowed_selection_blockers@
    }

    /// Whether the expansion added the package to the release set.
    pub closed spec fn is_pulled_in(self) -> bool {
        self.pulled_in
    }

    /// The blocking flags that the package carries, whatever the policy allows.
    pub open spec fn spec_blocked_by(self) -> Set<CrateStateFlags> {
        blockers_in(self.flag_set())
    }

    /// The allow-list that applies to the package: that for development
    /// dependencies if it is flagged as one, else that for selected packages.
    pub open spec fn spec_applicable_allow_list(self) -> Set<CrateStateFlags> {
        allow_list_for(self.flag_set(), self.dev_dependency_allowance(), self.selection_allowance())
    }

    /// The blocking flags that the applicable allow-list does not cover.
    pub open spec fn spec_disallowed_blockers(self) -> Set<CrateStateFlags> {
        uncovered_blockers(
            self.flag_set(),
            self.dev_dependency_allowance(),
            self.selection_allowance(),
        )
    }

    /// Whether the package carries any blocking flag.
    pub open spec fn spec_blocked(self) -> bool {
        self.spec_blocked_by() != Set::<CrateStateFlags>::empty()
    }

    /// Whether the package is matched or was pulled in by the expansion.
    pub open spec fn spec_selected(self) -> bool {
        self.flag_set().contains(CrateStateFlags::Matched) || self.is_pulled_in()
    }

    /// Whether the package is selected and nothing uncovered blocks it.
    pub open spec fn spec_release_eligible(self) -> bool {
        self.spec_selected() && self.spec_disallowed_blockers() == Set::<CrateStateFlags>::empty()
    }

    /// The verdict on a package that the expansion did not pull in.
    pub fn new(
        flags: FlagSet,
        allowed_dev_dependency_blockers: FlagSet,
        allowed_selection_blockers: FlagSet,
    ) -> (r: CrateState)
        ensures
            r.flag_set() == flags@,
            r.dev_dependency_allowance() == allowed_dev_dependency_blockers@,
            r.selection_allowance() == allowed_selection_blockers@,
            !r.is_pulled_in(),
    {
        CrateState {
            flags,
            allowed_dev_dependency_blockers,
            allowed_selection_blockers,
            pulled_in: false,
        }
    }

    /// The same verdict, with the mark of the expansion set to `pulled_in`.
    pub fn with_pulled_in(self, pulled_in: bool) -> (r: CrateState)
        ensures
            r.flag_set() == self.flag_set(),
            r.dev_dependency_allowance() == self.dev_dependency_allowance(),
            r.selection_allowance() == self.selection_allowance(),
            r.is_pulled_in() == pulled_in,
    {
        CrateState {
            flags: self.flags,
            allowed_dev_dependency_blockers: self.allowed_dev_dependency_blockers,
            allowed_selection_blockers: self.allowed_selection_blockers,
            pulled_in,
        }
    }

    /// The diagnostic flags.
    pub fn flags(&self) -> (r: FlagSet)
        ensures
            r@ == self.flag_set(),
    {
        self.flags
    }

    /// Whether the package carries `flag`.
    pub fn contains(&self, flag: CrateStateFlags) -> (r: bool)
        ensures
            r == self.flag_set().contains(flag),
    {
        self.flags.contains(flag)
    }

    /// Whether the expansion pulled the package in.
    pub fn pulled_in(&self) -> (r: bool)
        ensures
            r == self.is_pulled_in(),
    {
        self.pulled_in
    }

    /// The blocking flags of the package: its flags within the blocking
    /// subset. No allow-list enters into it.
    pub fn blocked_by(&self) -> (r: FlagSet)
        ensures
            r@ == self.spec_blocked_by(),
            r@ == self.flag_set().intersect(blocking_subset()),
    {
        self.flags.intersection(FlagSet::blocking())
    }

    /// The allow-list that applies to the package.
    pub fn applicable_allow_list(&self) -> (r: FlagSet)
        ensures
            r@ == self.spec_applicable_allow_list(),
    {
        if self.flags.contains(CrateStateFlags::IsWorkspaceDevDependency) {
            self.allowed_dev_dependency_blockers
        } else {
            self.allowed_selection_blockers
        }
    }

    /// The blocking flags that the applicable allow-list leaves uncovered.
    pub fn disallowed_blockers(&self) -> (r: FlagSet)
        ensures
            r@ == self.spec_disallowed_blockers(),
            r@ == self.spec_blocked_by().difference(self.spec_applicable_allow_list()),
    {
        self.blocked_by().difference(self.applicable_allow_list())
    }

    /// Whether the package has a documentation or version problem at all.
    pub fn blocked(&self) -> (r: bool)
        ensures
            r == self.spec_blocked(),
            r == (self.spec_blocked_by() != Set::<CrateStateFlags>::empty()),
    {
        !self.blocked_by().is_empty()
    }

    /// Whether the package is matched or was pulled in by the expansion.
    pub fn selected(&self) -> (r: bool)
        ensures
            r == self.spec_selected(),
            r == (self.flag_set().contains(CrateStateFlags::Matched) || self.is_pulled_in()),
    {
        self.flags.contains(CrateStateFlags::Matched) || self.pulled_in
    }

    /// Whether the package is selected and free of uncovered blockers.
    pub fn release_eligible(&self) -> (r: bool)
        ensures
            r == self.spec_release_eligible(),
            r == (self.spec_selected() && self.spec_disallowed_blockers() == Set::<
                CrateStateFlags,
            >::empty()),
    {
        self.selected() && self.disallowed_blockers().is_empty()
    }
}

/// What blocks a package depends on its flags alone: two verdicts on the same
/// flags report the same blockers, whichever allow-lists they were given, and
/// these are the flags within the blocking subset.
pub proof fn lemma_blocked_by_ignores_allow_lists(a: CrateState, b: CrateState)
    requires
        a.flag_set() == b.flag_set(),
    ensures
        a.spec_blocked_by() == b.spec_blocked_by(),
        a.spec_blocked_by() == a.flag_set().intersect(blocking_subset()),
        a.spec_blocked() == b.spec_blocked(),
{
}

/// No uncovered blocker remains exactly when the applicable allow-list holds
/// every blocking flag of the package.
pub proof fn lemma_disallowed_blockers_empty_iff_covered(state: CrateState)
    ensures
        (state.spec_disallowed_blockers() == Set::<CrateStateFlags>::empty())
            <==> state.spec_blocked_by().subset_of(state.spec_applicable_allow_list()),
{
    let blocked = state.spec_blocked_by();
    let allowed = state.spec_applicable_allow_list();
    if blocked.subset_of(allowed) {
        assert(blocked.difference(allowed) =~= Set::<CrateStateFlags>::empty());
    }
    if blocked.difference(allowed) == Set::<CrateStateFlags>::empty() {
        assert forall|flag: CrateStateFlags| blocked.contains(flag) implies allowed.contains(
            flag,
        ) by {
            assert(!blocked.difference(allowed).contains(flag));
        }
    }
}

/// A package with an uncovered blocker is never eligible for release, selected
/// or not.
pub proof fn lemma_uncovered_blocker_prevents_release(state: CrateState)
    requires
        state.spec_disallowed_blockers() != Set::<CrateStateFlags>::empty(),
    ensures
        !state.spec_release_eligible(),
{
}

/// A package without any blocking flag is eligible exactly when it is selected.
pub proof fn lemma_unblocked_is_eligible_iff_selected(state: CrateState)
    requires
        !state.spec_blocked(),
    ensures
        state.spec_release_eligible() == state.spec_selected(),
{
    assert(state.spec_disallowed_blockers() =~= Set::<CrateStateFlags>::empty());
}

} // verus!
