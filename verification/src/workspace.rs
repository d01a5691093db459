//! A workspace ready for release selection: its graph, the policy, and the
//! paths that changed.

use crate::changes::{changed_files, detected_changes, texts, HistoryError, HistoryStore};
use crate::criteria::SelectionCriteria;
use crate::diagnostics::{diagnostic_flags, evaluate};
use crate::flags::{CrateStateFlags, FlagSet};
use crate::graph::{load_failure, LoadError, PackageGraph};
use crate::package::Package;
use crate::selection::{
    blockers_of, crate_states, diagnosis, flag_views, is_candidate, is_selection_outcome,
    release_selection, SelectionError,
};
use crate::state::CrateState;
use crate::topology::is_release_order;
use vstd::prelude::*;

verus! {

/// Why a workspace could not be made ready for a selection run.
#[derive(Clone, Copy, PartialEq, Eq, Debug, Hash, Structural)]
pub enum WorkspaceError {
    /// The workspace is malformed.
    Load(LoadError),
    /// The change set could not be computed.
    History(HistoryError),
}

/// One snapshot of a workspace together with what a selection run needs.
/// Nothing in it changes after it is built.
#[derive(Clone, Debug)]
pub struct ReleaseWorkspace {
    graph: PackageGraph,
    criteria: SelectionCriteria,
    changes: Vec<String>,
}

impl ReleaseWorkspace {
    /// The packages, in the order of their declaration.
    pub closed spec fn packages(&self) -> Seq<Package> {
        self.graph@
    }

    /// The indices of the packages in release order.
    pub closed spec fn release_order(&self) -> Seq<usize> {
        self.graph.release_order()
    }

    /// The selection policy.
    pub closed spec fn policy(&self) -> SelectionCriteria {
        self.criteria
    }

    /// The changed paths.
    pub closed spec fn changed_paths(&self) -> Seq<String> {
        self.changes@
    }

    /// The graph inside is well-formed.
    pub closed spec fn wf(&self) -> bool {
        self.graph.wf()
    }

    /// A workspace under the default policy, which matches every package and
    /// allows no blocker.
    pub fn try_new(packages: Vec<Package>, changes: Vec<String>) -> (r: Result<
        ReleaseWorkspace,
        LoadError,
    >)
        ensures
            match r {
                Ok(workspace) => {
                    &&& load_failure(packages@) is None
                    &&& workspace.wf()
                    &&& workspace.packages() == packages@
                    &&& workspace.changed_paths() == changes@
                    &&& workspace.policy().pattern() == ".*"@
                    &&& workspace.policy().disallowed().len() == 0
                    &&& workspace.policy().enforced().len() == 0
                    &&& workspace.policy().dev_dependency_allowance() == Set::<
                        CrateStateFlags,
                    >::empty()
                    &&& workspace.policy().selection_allowance() == Set::<CrateStateFlags>::empty()
                    &&& !workspace.policy().excludes_optional()
                },
                Err(e) => load_failure(packages@) == Some(e),
            },
    {
        ReleaseWorkspace::try_new_with_criteria(packages, changes, SelectionCriteria::default())
    }

    /// A workspace under the policy `criteria`.
    pub fn try_new_with_criteria(
        packages: Vec<Package>,
        changes: Vec<String>,
        criteria: SelectionCriteria,
    ) -> (r: Result<ReleaseWorkspace, LoadError>)
        ensures
            match r {
                Ok(workspace) => {
                    &&& load_failure(packages@) is None
                    &&& workspace.wf()
                    &&& workspace.packages() == packages@
                    &&& workspace.changed_paths() == changes@
                    &&& workspace.policy() == criteria
                },
                Err(e) => load_failure(packages@) == Some(e),
            },
    {
        match PackageGraph::try_new(packages) {
            Ok(graph) => Ok(ReleaseWorkspace { graph, criteria, changes }),
            Err(e) => Err(e),
        }
    }

    /// A workspace under the policy `criteria` whose change set is what
    /// differs between the revisions `before` and `after` of the history in
    /// `store`. A malformed workspace is reported before a fault of the
    /// history.
    pub fn try_from_history(
        packages: Vec<Package>,
        criteria: SelectionCriteria,
        root: &String,
        store: &HistoryStore,
        before: &String,
        after: &String,
    ) -> (r: Result<ReleaseWorkspace, WorkspaceError>)
        ensures
            match r {
                Ok(workspace) => {
                    &&& load_failure(packages@) is None
                    &&& detected_changes(root@, *store, before@, after@) == Ok::<
                        Seq<Seq<char>>,
                        HistoryError,
                    >(texts(workspace.changed_paths()))
                    &&& workspace.wf()
                    &&& workspace.packages() == packages@
                    &&& workspace.policy() == criteria
                },
                Err(WorkspaceError::Load(e)) => load_failure(packages@) == Some(e),
                Err(WorkspaceError::History(e)) => {
                    &&& load_failure(packages@) is None
                    &&& detected_changes(root@, *store, before@, after@) == Err::<
                        Seq<Seq<char>>,
                        HistoryError,
                    >(e)
                },
            },
    {
        let graph = match PackageGraph::try_new(packages) {
            Ok(graph) => graph,
            Err(e) => {
                return Err(WorkspaceError::Load(e));
            },
        };
        let changes = match changed_files(root, store, before, after) {
            Ok(changes) => changes,
            Err(e) => {
                return Err(WorkspaceError::History(e));
            },
        };
        Ok(ReleaseWorkspace { graph, criteria, changes })
    }

    /// The package graph.
    pub fn graph(&self) -> (r: &PackageGraph)
        requires
            self.wf(),
        ensures
            r@ == self.packages(),
            r.release_order() == self.release_order(),
            r.wf(),
    {
        &self.graph
    }

    /// The selection policy.
    pub fn criteria(&self) -> (r: &SelectionCriteria)
        ensures
            *r == self.policy(),
    {
        &self.criteria
    }

    /// The changed paths.
    pub fn changes(&self) -> (r: &Vec<String>)
        ensures
            r@ == self.changed_paths(),
    {
        &self.changes
    }

    /// Every package, by index, in release order.
    pub fn members(&self) -> (r: &Vec<usize>)
        requires
            self.wf(),
        ensures
            r@ == self.release_order(),
            is_release_order(self.packages(), r@),
    {
        self.graph.members()
    }

    /// The names of all packages in release order.
    pub fn member_names(&self) -> (r: Vec<String>)
        requires
            self.wf(),
        ensures
            r@.len() == self.release_order().len(),
            forall|k: int|
                0 <= k < r@.len() ==> (#[trigger] r@[k])@ == self.packages()[self.release_order()[k] as int].name@,
    {
        self.graph.names(self.graph.members())
    }

    /// The diagnostic flags of every package.
    pub fn flags(&self) -> (r: Vec<FlagSet>)
        requires
            self.wf(),
        ensures
            r@.len() == self.packages().len(),
            forall|i: int|
                0 <= i < r@.len() ==> (#[trigger] r@[i])@ == diagnostic_flags(
                    self.packages(),
                    self.policy(),
                    self.changed_paths(),
                    i,
                ),
    {
        evaluate(&self.graph, &self.criteria, &self.changes)
    }

    /// The verdict on every package.
    pub fn states(&self) -> (r: Vec<CrateState>)
        requires
            self.wf(),
        ensures
            r@.len() == self.packages().len(),
            forall|i: int|
                0 <= i < r@.len() ==> {
                    let flags = diagnosis(self.packages(), self.policy(), self.changed_paths());
                    &&& (#[trigger] r@[i]).flag_set() == flags[i]
                    &&& r@[i].dev_dependency_allowance() == self.policy().dev_dependency_allowance()
                    &&& r@[i].selection_allowance() == self.policy().selection_allowance()
                    &&& r@[i].is_pulled_in() == (is_candidate(
                        self.packages(),
                        flags,
                        self.policy().traversal(),
                        i,
                    ) && !flags[i].contains(CrateStateFlags::Matched))
                    &&& r@[i].spec_disallowed_blockers() == blockers_of(flags, self.policy(), i)
                },
    {
        let flags = evaluate(&self.graph, &self.criteria, &self.changes);
        assert(flag_views(flags@) =~= diagnosis(
            self.packages(),
            self.policy(),
            self.changed_paths(),
        ));
        crate_states(&self.graph, &self.criteria, &flags)
    }

    /// The packages to release, in release order; or the candidates that the
    /// policy blocks.
    pub fn release_selection(&self) -> (r: Result<Vec<usize>, SelectionError>)
        requires
            self.wf(),
        ensures
            is_selection_outcome(
                r,
                self.packages(),
                self.release_order(),
                diagnosis(self.packages(), self.policy(), self.changed_paths()),
                self.policy(),
            ),
            self.changed_paths().len() == 0 ==> (r matches Ok(selection) && selection@.len() == 0),
    {
        release_selection(&self.graph, &self.criteria, &self.changes)
    }
}

} // verus!
