//! The closed vocabulary of diagnostic flags and sets over it.

use vstd::prelude::*;

verus! {

/// One independent boolean fact about a package.
#[derive(Clone, Copy, PartialEq, Eq, Debug, Hash, Structural)]
pub enum CrateStateFlags {
    /// The package name satisfies the match filter.
    Matched,
    /// Some changed path lies under the package's root.
    ChangedSincePreviousRelease,
    /// The package is a transitive dependency of a matched package.
    IsWorkspaceDependency,
    /// The package is such a dependency, and no chain of normal edges alone
    /// leads to it from a matched package.
    IsWorkspaceDevDependency,
    /// The readme is absent or invalid.
    MissingReadme,
    /// The changelog is absent.
    MissingChangelog,
    /// The changelog is present, and its leading entry lacks the marker of a
    /// pending release.
    UnreleasableViaChangelogFrontmatter,
    /// The version lies in a range of the disallowed list.
    DisallowedVersionReqViolated,
    /// The version lies in a range of the enforced list.
    EnforcedVersionReqViolated,
}

/// The flags that keep a package from being released unless an allow-list
/// covers them: those on documentation and on version constraints.
pub open spec fn blocking_subset() -> Set<CrateStateFlags> {
    set![
        CrateStateFlags::MissingReadme,
        CrateStateFlags::MissingChangelog,
        CrateStateFlags::UnreleasableViaChangelogFrontmatter,
        CrateStateFlags::DisallowedVersionReqViolated,
        CrateStateFlags::EnforcedVersionReqViolated,
    ]
}

/// Every flag of the vocabulary, in the order in which they are declared.
pub open spec fn vocabulary() -> Seq<CrateStateFlags> {
    seq![
        CrateStateFlags::Matched,
        CrateStateFlags::ChangedSincePreviousRelease,
        CrateStateFlags::IsWorkspaceDependency,
        CrateStateFlags::IsWorkspaceDevDependency,
        CrateStateFlags::MissingReadme,
        CrateStateFlags::MissingChangelog,
        CrateStateFlags::UnreleasableViaChangelogFrontmatter,
        CrateStateFlags::DisallowedVersionReqViolated,
        CrateStateFlags::EnforcedVersionReqViolated,
    ]
}

/// The text by which a flag is named in messages.
pub open spec fn flag_label(flag: CrateStateFlags) -> Seq<char> {
    match flag {
        CrateStateFlags::Matched => "Matched"@,
        CrateStateFlags::ChangedSincePreviousRelease => "ChangedSincePreviousRelease"@,
        CrateStateFlags::IsWorkspaceDependency => "IsWorkspaceDependency"@,
        CrateStateFlags::IsWorkspaceDevDependency => "IsWorkspaceDevDependency"@,
        CrateStateFlags::MissingReadme => "MissingReadme"@,
        CrateStateFlags::MissingChangelog => "MissingChangelog"@,
        CrateStateFlags::UnreleasableViaChangelogFrontmatter => "UnreleasableViaChangelogFrontmatter"@,
        CrateStateFlags::DisallowedVersionReqViolated => "DisallowedVersionReqViolated"@,
        CrateStateFlags::EnforcedVersionReqViolated => "EnforcedVersionReqViolated"@,
    }
}

impl CrateStateFlags {
    /// Whether the flag belongs to the blocking subset.
    pub fn is_blocking(self) -> (r: bool)
        ensures
            r == blocking_subset().contains(self),
    {
        match self {
            CrateStateFlags::MissingReadme => true,
            CrateStateFlags::MissingChangelog => true,
            CrateStateFlags::UnreleasableViaChangelogFrontmatter => true,
            CrateStateFlags::DisallowedVersionReqViolated => true,
            CrateStateFlags::EnforcedVersionReqViolated => true,
            _ => false,
        }
    }

    /// The flag's name as text.
    pub fn label(self) -> (r: &'static str)
        ensures
            r@ == flag_label(self),
    {
        match self {
            CrateStateFlags::Matched => "Matched",
            CrateStateFlags::ChangedSincePreviousRelease => "ChangedSincePreviousRelease",
            CrateStateFlags::IsWorkspaceDependency => "IsWorkspaceDependency",
            CrateStateFlags::IsWorkspaceDevDependency => "IsWorkspaceDevDependency",
            CrateStateFlags::MissingReadme => "MissingReadme",
            CrateStateFlags::MissingChangelog => "MissingChangelog",
            CrateStateFlags::UnreleasableViaChangelogFrontmatter => "UnreleasableViaChangelogFrontmatter",
            CrateStateFlags::DisallowedVersionReqViolated => "DisallowedVersionReqViolated",
            CrateStateFlags::EnforcedVersionReqViolated => "EnforcedVersionReqViolated",
        }
    }
}

/// A set of diagnostic flags. Its view is the mathematical set of its members.
#[derive(Clone, Copy, PartialEq, Eq, Debug, Hash, Structural)]
pub struct FlagSet {
    matched: bool,
    changed: bool,
    dependency: bool,
    dev_dependency: bool,
    missing_readme: bool,
    missing_changelog: bool,
    unreleasable_changelog: bool,
    disallowed_version: bool,
    enforced_version: bool,
}

impl View for FlagSet {
    type V = Set<CrateStateFlags>;

    closed spec fn view(&self) -> Set<CrateStateFlags> {
        Set::new(|flag: CrateStateFlags| self.holds(flag))
    }
}

impl FlagSet {
    closed spec fn holds(self, flag: CrateStateFlags) -> bool {
        match flag {
            CrateStateFlags::Matched => self.matched,
            CrateStateFlags::ChangedSincePreviousRelease => self.changed,
            CrateStateFlags::IsWorkspaceDependency => self.dependency,
            CrateStateFlags::IsWorkspaceDevDependency => self.dev_dependency,
            CrateStateFlags::MissingReadme => self.missing_readme,
            CrateStateFlags::MissingChangelog => self.missing_changelog,
            CrateStateFlags::UnreleasableViaChangelogFrontmatter => self.unreleasable_changelog,
            CrateStateFlags::DisallowedVersionReqViolated => self.disallowed_version,
            CrateStateFlags::EnforcedVersionReqViolated => self.enforced_version,
        }
    }

    /// Two flag sets with the same members are the same value.
    pub proof fn lemma_view_injective(a: FlagSet, b: FlagSet)
        requires
            a@ == b@,
        ensures
            a == b,
    {
        assert forall|flag: CrateStateFlags| a.holds(flag) == b.holds(flag) by {
            assert(a@.contains(flag) == a.holds(flag));
            assert(b@.contains(flag) == b.holds(flag));
        }
        assert(a.holds(CrateStateFlags::Matched) == b.holds(CrateStateFlags::Matched));
        assert(a.holds(CrateStateFlags::ChangedSincePreviousRelease) == b.holds(
            CrateStateFlags::ChangedSincePreviousRelease,
        ));
        assert(a.holds(CrateStateFlags::IsWorkspaceDependency) == b.holds(
            CrateStateFlags::IsWorkspaceDependency,
        ));
        assert(a.holds(CrateStateFlags::IsWorkspaceDevDependency) == b.holds(
            CrateStateFlags::IsWorkspaceDevDependency,
        ));
        assert(a.holds(CrateStateFlags::MissingReadme) == b.holds(CrateStateFlags::MissingReadme));
        assert(a.holds(CrateStateFlags::MissingChangelog) == b.holds(
            CrateStateFlags::MissingChangelog,
        ));
        assert(a.holds(CrateStateFlags::UnreleasableViaChangelogFrontmatter) == b.holds(
            CrateStateFlags::UnreleasableViaChangelogFrontmatter,
        ));
        assert(a.holds(CrateStateFlags::DisallowedVersionReqViolated) == b.holds(
            CrateStateFlags::DisallowedVersionReqViolated,
        ));
        assert(a.holds(CrateStateFlags::EnforcedVersionReqViolated) == b.holds(
            CrateStateFlags::EnforcedVersionReqViolated,
        ));
    }

    /// The set without any flag.
    pub fn empty() -> (r: FlagSet)
        ensures
            r@ == Set::<CrateStateFlags>::empty(),
    {
        let r = FlagSet {
            matched: false,
            changed: false,
            dependency: false,
            dev_dependency: false,
            missing_readme: false,
            missing_changelog: false,
            unreleasable_changelog: false,
            disallowed_version: false,
            enforced_version: false,
        };
        assert(r@ =~= Set::<CrateStateFlags>::empty());
        r
    }

    /// The blocking subset of the vocabulary.
    pub fn blocking() -> (r: FlagSet)
        ensures
            r@ == blocking_subset(),
    {
        let r = FlagSet {
            matched: false,
            changed: false,
            dependency: false,
            dev_dependency: false,
            missing_readme: true,
            missing_changelog: true,
            unreleasable_changelog: true,
            disallowed_version: true,
            enforced_version: true,
        };
        assert(r@ =~= blocking_subset());
        r
    }

    /// Whether `flag` is a member.
    pub fn contains(&self, flag: CrateStateFlags) -> (r: bool)
        ensures
            r == self@.contains(flag),
    {
        match flag {
            CrateStateFlags::Matched => self.matched,
            CrateStateFlags::ChangedSincePreviousRelease => self.changed,
            CrateStateFlags::IsWorkspaceDependency => self.dependency,
            CrateStateFlags::IsWorkspaceDevDependency => self.dev_dependency,
            CrateStateFlags::MissingReadme => self.missing_readme,
            CrateStateFlags::MissingChangelog => self.missing_changelog,
            CrateStateFlags::UnreleasableViaChangelogFrontmatter => self.unreleasable_changelog,
            CrateStateFlags::DisallowedVersionReqViolated => self.disallowed_version,
            CrateStateFlags::EnforcedVersionReqViolated => self.enforced_version,
        }
    }

    /// The set with `flag` added.
    pub fn with(self, flag: CrateStateFlags) -> (r: FlagSet)
        ensures
            r@ == self@.insert(flag),
    {
        let mut r = self;
        match flag {
            CrateStateFlags::Matched => {
                r.matched = true;
            },
            CrateStateFlags::ChangedSincePreviousRelease => {
                r.changed = true;
            },
            CrateStateFlags::IsWorkspaceDependency => {
                r.dependency = true;
            },
            CrateStateFlags::IsWorkspaceDevDependency => {
                r.dev_dependency = true;
            },
            CrateStateFlags::MissingReadme => {
                r.missing_readme = true;
            },
            CrateStateFlags::MissingChangelog => {
                r.missing_changelog = true;
            },
            CrateStateFlags::UnreleasableViaChangelogFrontmatter => {
                r.unreleasable_changelog = true;
            },
            CrateStateFlags::DisallowedVersionReqViolated => {
                r.disallowed_version = true;
            },
            CrateStateFlags::EnforcedVersionReqViolated => {
                r.enforced_version = true;
            },
        }
        assert(r@ =~= self@.insert(flag));
        r
    }

    /// Adds `flag` to the set.
    pub fn insert(&mut self, flag: CrateStateFlags)
        ensures
            final(self)@ == old(self)@.insert(flag),
    {
        *self = self.with(flag);
    }

    /// The set that holds `flag` exactly when `present` says so, and is
    /// otherwise as `self`.
    pub fn with_if(self, flag: CrateStateFlags, present: bool) -> (r: FlagSet)
        ensures
            r@ == (if present {
                self@.insert(flag)
            } else {
                self@
            }),
    {
        if present {
            self.with(flag)
        } else {
            self
        }
    }

    /// The set of the flags listed in `flags`.
    pub fn from_flags(flags: &[CrateStateFlags]) -> (r: FlagSet)
        ensures
            r@ == flags@.to_set(),
    {
        let mut r = FlagSet::empty();
        let mut i: usize = 0;
        while i < flags.len()
            invariant
                i <= flags.len(),
                r@ == flags@.take(i as int).to_set(),
            decreases flags.len() - i,
        {
            proof {
                let before = flags@.take(i as int);
                assert(flags@.take(i + 1) =~= before.push(flags@[i as int]));
                before.lemma_push_to_set_commute(flags@[i as int]);
            }
            r = r.with(flags[i]);
            i += 1;
        }
        assert(flags@.take(i as int) =~= flags@);
        r
    }

    /// The flags that both sets hold.
    pub fn intersection(self, other: FlagSet) -> (r: FlagSet)
        ensures
            r@ == self@.intersect(other@),
    {
        let r = FlagSet {
            matched: self.matched && other.matched,
            changed: self.changed && other.changed,
            dependency: self.dependency && other.dependency,
            dev_dependency: self.dev_dependency && other.dev_dependency,
            missing_readme: self.missing_readme && other.missing_readme,
            missing_changelog: self.missing_changelog && other.missing_changelog,
            unreleasable_changelog: self.unreleasable_changelog && other.unreleasable_changelog,
            disallowed_version: self.disallowed_version && other.disallowed_version,
            enforced_version: self.enforced_version && other.enforced_version,
        };
        assert(r@ =~= self@.intersect(other@));
        r
    }

    /// The flags that either set holds.
    pub fn union(self, other: FlagSet) -> (r: FlagSet)
        ensures
            r@ == self@.union(other@),
    {
        let r = FlagSet {
            matched: self.matched || other.matched,
            changed: self.changed || other.changed,
            dependency: self.dependency || other.dependency,
            dev_dependency: self.dev_dependency || other.dev_dependency,
            missing_readme: self.missing_readme || other.missing_readme,
            missing_changelog: self.missing_changelog || other.missing_changelog,
            unreleasable_changelog: self.unreleasable_changelog || other.unreleasable_changelog,
            disallowed_version: self.disallowed_version || other.disallowed_version,
            enforced_version: self.enforced_version || other.enforced_version,
        };
        assert(r@ =~= self@.union(other@));
        r
    }

    /// The flags of `self` that `other` does not hold.
    pub fn difference(self, other: FlagSet) -> (r: FlagSet)
        ensures
            r@ == self@.difference(other@),
    {
        let r = FlagSet {
            matched: self.matched && !other.matched,
            changed: self.changed && !other.changed,
            dependency: self.dependency && !other.dependency,
            dev_dependency: self.dev_dependency && !other.dev_dependency,
            missing_readme: self.missing_readme && !other.missing_readme,
            missing_changelog: self.missing_changelog && !other.missing_changelog,
            unreleasable_changelog: self.unreleasable_changelog && !other.unreleasable_changelog,
            disallowed_version: self.disallowed_version && !other.disallowed_version,
            enforced_version: self.enforced_version && !other.enforced_version,
        };
        assert(r@ =~= self@.difference(other@));
        r
    }

    /// Whether the set holds no flag.
    pub fn is_empty(&self) -> (r: bool)
        ensures
            r == (self@ == Set::<CrateStateFlags>::empty()),
    {
        let r = !(self.matched || self.changed || self.dependency || self.dev_dependency
            || self.missing_readme || self.missing_changelog || self.unreleasable_changelog
            || self.disallowed_version || self.enforced_version);
        proof {
            if r {
                assert(self@ =~= Set::<CrateStateFlags>::empty());
            } else {
                let witness = if self.matched {
                    CrateStateFlags::Matched
                } else if self.changed {
                    CrateStateFlags::ChangedSincePreviousRelease
                } else if self.dependency {
                    CrateStateFlags::IsWorkspaceDependency
                } else if self.dev_dependency {
                    CrateStateFlags::IsWorkspaceDevDependency
                } else if self.missing_readme {
                    CrateStateFlags::MissingReadme
                } else if self.missing_changelog {
                    CrateStateFlags::MissingChangelog
                } else if self.unreleasable_changelog {
                    CrateStateFlags::UnreleasableViaChangelogFrontmatter
                } else if self.disallowed_version {
                    CrateStateFlags::DisallowedVersionReqViolated
                } else {
                    CrateStateFlags::EnforcedVersionReqViolated
                };
                assert(self@.contains(witness));
            }
        }
        r
    }

    /// Whether every flag of `self` is a flag of `other`.
    pub fn is_subset_of(&self, other: &FlagSet) -> (r: bool)
        ensures
            r == self@.subset_of(other@),
    {
        let rest = self.difference(*other);
        let r = rest.is_empty();
        proof {
            if r {
                assert forall|flag: CrateStateFlags| self@.contains(flag) implies other@.contains(
                    flag,
                ) by {
                    assert(!rest@.contains(flag));
                }
            } else {
                assert(rest@ !== Set::<CrateStateFlags>::empty());
                if self@.subset_of(other@) {
                    assert(rest@ =~= Set::<CrateStateFlags>::empty());
                }
            }
        }
        r
    }

    /// The members, in the order of the vocabulary.
    pub fn to_vec(&self) -> (r: Vec<CrateStateFlags>)
        ensures
            r@ == vocabulary().filter(|flag: CrateStateFlags| self@.contains(flag)),
    {
        let all: [CrateStateFlags; 9] = [
            CrateStateFlags::Matched,
            CrateStateFlags::ChangedSincePreviousRelease,
            CrateStateFlags::IsWorkspaceDependency,
            CrateStateFlags::IsWorkspaceDevDependency,
            CrateStateFlags::MissingReadme,
            CrateStateFlags::MissingChangelog,
            CrateStateFlags::UnreleasableViaChangelogFrontmatter,
            CrateStateFlags::DisallowedVersionReqViolated,
            CrateStateFlags::EnforcedVersionReqViolated,
        ];
        assert(all@ =~= vocabulary());
        let ghost member = |flag: CrateStateFlags| self@.contains(flag);
        let mut r: Vec<CrateStateFlags> = Vec::new();
        let mut i: usize = 0;
        while i < 9
            invariant
                i <= 9,
                all@ == vocabulary(),
                member == (|flag: CrateStateFlags| self@.contains(flag)),
                r@ == all@.take(i as int).filter(member),
            decreases 9 - i,
        {
            proof {
                let before = all@.take(i as int);
                assert(all@.take(i + 1) =~= before.push(all@[i as int]));
                before.lemma_filter_push(all@[i as int], member);
            }
            if self.contains(all[i]) {
                r.push(all[i]);
            }
            i += 1;
        }
        assert(all@.take(9) =~= all@);
        r
    }
}

} // verus!
