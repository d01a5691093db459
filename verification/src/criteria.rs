//! The selection policy: what a caller configures for one run.

use crate::flags::{CrateStateFlags, FlagSet};
use crate::outside::{
    pattern_compiles, pattern_is_valid, requirement_is_valid, requirement_parses,
};
use crate::package::EdgeFilter;
use vstd::prelude::*;
use vstd::string::StringExecFns;

verus! {

/// Why a selection policy cannot be built.
#[derive(Clone, Copy, PartialEq, Eq, Debug, Hash, Structural)]
pub enum CriteriaError {
    /// The match filter is no valid pattern.
    InvalidMatchFilter,
    /// Some entry of a version-constraint list is no valid requirement.
    InvalidVersionRequirement,
}

/// Every text of `requirements` is a valid version requirement.
pub open spec fn requirements_valid(requirements: Seq<String>) -> bool {
    forall|i: int|
        0 <= i < requirements.len() ==> requirement_is_valid((#[trigger] requirements[i])@)
}

/// The error with which building a policy from these parts fails, if it
/// fails. A bad match filter is reported before a bad requirement.
pub open spec fn criteria_failure(
    match_filter: Seq<char>,
    disallowed: Seq<String>,
    enforced: Seq<String>,
) -> Option<CriteriaError> {
    if !pattern_is_valid(match_filter) {
        Some(CriteriaError::InvalidMatchFilter)
    } else if !requirements_valid(disallowed) || !requirements_valid(enforced) {
        Some(CriteriaError::InvalidVersionRequirement)
    } else {
        None
    }
}

/// The selection policy of one run. It is immutable once built.
#[derive(Clone, Debug)]
pub struct SelectionCriteria {
    match_filter: String,
    disallowed_version_reqs: Vec<String>,
    enforced_version_reqs: Vec<String>,
    allowed_dev_dependency_blockers: FlagSet,
    allowed_selection_blockers: FlagSet,
    exclude_optional_deps: bool,
}

fn all_requirements_parse(requirements: &Vec<String>) -> (r: bool)
    ensures
        r == requirements_valid(requirements@),
{
    let n = requirements.len();
    let mut i: usize = 0;
    while i < n
        invariant
            n == requirements@.len(),
            i <= n,
            forall|j: int| 0 <= j < i ==> requirement_is_valid((#[trigger] requirements@[j])@),
        decreases n - i,
    {
        if !requirement_parses(requirements[i].as_str()) {
            return false;
        }
        i += 1;
    }
    true
}

impl SelectionCriteria {
    /// The pattern that marks a package as matched when it is found in the
    /// package's name.
    pub closed spec fn pattern(&self) -> Seq<char> {
        self.match_filter@
    }

    /// The version ranges that a package's version must stay out of.
    pub closed spec fn disallowed(&self) -> Seq<String> {
        self.disallowed_version_reqs@
    }

    /// The second list of version ranges, tested independently of the first.
    pub closed spec fn enforced(&self) -> Seq<String> {
        self.enforced_version_reqs@
    }

    /// The blocking flags tolerated on a package that is only a development
    /// dependency.
    pub closed spec fn dev_dependency_allowance(&self) -> Set<CrateStateFlags> {
        self.allowed_dev_dependency_blockers@
    }

    /// The blocking flags tolerated on a matched package or a release
    /// dependency.
    pub closed spec fn selection_allowance(&self) -> Set<CrateStateFlags> {
        self.allowed_selection_blockers@
    }

    /// Whether optional edges stay out of graph traversals.
    pub closed spec fn excludes_optional(&self) -> bool {
        self.exclude_optional_deps
    }

    /// The edges that traversals under this policy follow: normal and
    /// development edges, the optional ones unless the policy excludes them.
    pub open spec fn traversal(&self) -> EdgeFilter {
        EdgeFilter { normal: true, development: true, optional: !self.excludes_optional() }
    }

    /// Of the edges that traversals follow, the normal ones.
    pub open spec fn normal_traversal(&self) -> EdgeFilter {
        EdgeFilter { normal: true, development: false, optional: !self.excludes_optional() }
    }

    /// Builds a policy, or says which part of it is invalid.
    pub fn try_new(
        match_filter: String,
        disallowed_version_reqs: Vec<String>,
        enforced_version_reqs: Vec<String>,
        allowed_dev_dependency_blockers: FlagSet,
        allowed_selection_blockers: FlagSet,
        exclude_optional_deps: bool,
    ) -> (r: Result<SelectionCriteria, CriteriaError>)
        ensures
            match r {
                Ok(criteria) => {
                    &&& criteria_failure(
                        match_filter@,
                        disallowed_version_reqs@,
                        enforced_version_reqs@,
                    ) is None
                    &&& criteria.pattern() == match_filter@
                    &&& criteria.disallowed() == disallowed_version_reqs@
                    &&& criteria.enforced() == enforced_version_reqs@
                    &&& criteria.dev_dependency_allowance() == allowed_dev_dependency_blockers@
                    &&& criteria.selection_allowance() == allowed_selection_blockers@
                    &&& criteria.excludes_optional() == exclude_optional_deps
                },
                Err(e) => criteria_failure(
                    match_filter@,
                    disallowed_version_reqs@,
                    enforced_version_reqs@,
                ) == Some(e),
            },
    {
        if !pattern_compiles(match_filter.as_str()) {
            return Err(CriteriaError::InvalidMatchFilter);
        }
        if !all_requirements_parse(&disallowed_version_reqs) {
            return Err(CriteriaError::InvalidVersionRequirement);
        }
        if !all_requirements_parse(&enforced_version_reqs) {
            return Err(CriteriaError::InvalidVersionRequirement);
        }
        Ok(
            SelectionCriteria {
                match_filter,
                disallowed_version_reqs,
                enforced_version_reqs,
                allowed_dev_dependency_blockers,
                allowed_selection_blockers,
                exclude_optional_deps,
            },
        )
    }

    /// The match filter.
    pub fn match_filter(&self) -> (r: &String)
        ensures
            r@ == self.pattern(),
    {
        &self.match_filter
    }

    /// The disallowed version ranges.
    pub fn disallowed_version_reqs(&self) -> (r: &Vec<String>)
        ensures
            r@ == self.disallowed(),
    {
        &self.disallowed_version_reqs
    }

    /// The enforced version ranges.
    pub fn enforced_version_reqs(&self) -> (r: &Vec<String>)
        ensures
            r@ == self.enforced(),
    {
        &self.enforced_version_reqs
    }

    /// The allow-list for packages that are only development dependencies.
    pub fn allowed_dev_dependency_blockers(&self) -> (r: FlagSet)
        ensures
            r@ == self.dev_dependency_allowance(),
    {
        self.allowed_dev_dependency_blockers
    }

    /// The allow-list for matched packages and release dependencies.
    pub fn allowed_selection_blockers(&self) -> (r: FlagSet)
        ensures
            r@ == self.selection_allowance(),
    {
        self.allowed_selection_blockers
    }

    /// Whether optional edges stay out of graph traversals.
    pub fn exclude_optional_deps(&self) -> (r: bool)
        ensures
            r == self.excludes_optional(),
    {
        self.exclude_optional_deps
    }

    /// The filter for the edges that traversals follow.
    pub fn traversal_filter(&self) -> (r: EdgeFilter)
        ensures
            r == self.traversal(),
    {
        EdgeFilter { normal: true, development: true, optional: !self.exclude_optional_deps }
    }

    /// The filter for the normal edges that traversals follow.
    pub fn normal_traversal_filter(&self) -> (r: EdgeFilter)
        ensures
            r == self.normal_traversal(),
    {
        EdgeFilter { normal: true, development: false, optional: !self.exclude_optional_deps }
    }
}

impl Default for SelectionCriteria {
    /// The policy that matches every package name, constrains no version,
    /// allows no blocker and follows optional edges.
    fn default() -> (r: SelectionCriteria)
        ensures
            r.pattern() == ".*"@,
            r.disallowed().len() == 0,
            r.enforced().len() == 0,
            r.dev_dependency_allowance() == Set::<CrateStateFlags>::empty(),
            r.selection_allowance() == Set::<CrateStateFlags>::empty(),
            !r.excludes_optional(),
    {
        SelectionCriteria {
            match_filter: String::from_str(".*"),
            disallowed_version_reqs: Vec::new(),
            enforced_version_reqs: Vec::new(),
            allowed_dev_dependency_blockers: FlagSet::empty(),
            allowed_selection_blockers: FlagSet::empty(),
            exclude_optional_deps: false,
        }
    }
}

} // verus!
