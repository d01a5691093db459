//! The selection engine: from the flags of every package to the ordered
//! release set, or to the list of the candidates that block the release.

use crate::criteria::SelectionCriteria;
use crate::diagnostics::{any_in_both, diagnostic_flags, evaluate, is_under};
use crate::flags::{flag_label, vocabulary, CrateStateFlags, FlagSet};
use crate::graph::PackageGraph;
use crate::package::{EdgeFilter, Package};
use crate::state::{uncovered_blockers, CrateState};
use crate::topology::{chain_within, connected, has_edge, is_chain, lemma_chain_append};
use vstd::prelude::*;
use vstd::string::StringExecFns;

verus! {

/// The sets of flags that a vector of flag sets stands for.
pub open spec fn flag_views(flags: Seq<FlagSet>) -> Seq<Set<CrateStateFlags>> {
    flags.map_values(|set: FlagSet| set@)
}

/// For every package, whether it carries `flag`.
pub open spec fn flag_marks(flags: Seq<Set<CrateStateFlags>>, flag: CrateStateFlags) -> Seq<bool> {
    Seq::new(flags.len(), |i: int| flags[i].contains(flag))
}

/// The diagnostic flags of every package of the workspace.
pub open spec fn diagnosis(pkgs: Seq<Package>, criteria: SelectionCriteria, changes: Seq<String>) -> Seq<
    Set<CrateStateFlags>,
> {
    Seq::new(pkgs.len(), |i: int| diagnostic_flags(pkgs, criteria, changes, i))
}

/// Package `i` is a release candidate: it has changed, and it is matched or
/// some matched package leads to it along a chain of admitted dependency
/// edges on which every package has changed. This is the least set that
/// holds every matched and changed package and, with a package, each of its
/// dependencies that has changed.
pub open spec fn is_candidate(
    pkgs: Seq<Package>,
    flags: Seq<Set<CrateStateFlags>>,
    filter: EdgeFilter,
    i: int,
) -> bool {
    let matched = flag_marks(flags, CrateStateFlags::Matched);
    let changed = flag_marks(flags, CrateStateFlags::ChangedSincePreviousRelease);
    &&& 0 <= i < pkgs.len()
    &&& changed[i]
    &&& (matched[i] || exists|s: int|
        0 <= s < pkgs.len() && matched[s] && #[trigger] connected(pkgs, s, i, filter, changed))
}

/// The blocking flags of package `i` that the policy does not cover.
pub open spec fn blockers_of(flags: Seq<Set<CrateStateFlags>>, criteria: SelectionCriteria, i: int) -> Set<
    CrateStateFlags,
> {
    uncovered_blockers(flags[i], criteria.dev_dependency_allowance(), criteria.selection_allowance())
}

/// Package `i` is a candidate with a blocking flag that the policy does not
/// cover.
pub open spec fn is_blocked_candidate(
    pkgs: Seq<Package>,
    flags: Seq<Set<CrateStateFlags>>,
    criteria: SelectionCriteria,
    i: int,
) -> bool {
    &&& is_candidate(pkgs, flags, criteria.traversal(), i)
    &&& blockers_of(flags, criteria, i) != Set::<CrateStateFlags>::empty()
}

/// The test for a candidate, on an entry of the release order.
pub open spec fn candidate_test(
    pkgs: Seq<Package>,
    flags: Seq<Set<CrateStateFlags>>,
    filter: EdgeFilter,
) -> spec_fn(usize) -> bool {
    |q: usize| is_candidate(pkgs, flags, filter, q as int)
}

/// The test for a blocked candidate, on an entry of the release order.
pub open spec fn blocked_test(
    pkgs: Seq<Package>,
    flags: Seq<Set<CrateStateFlags>>,
    criteria: SelectionCriteria,
) -> spec_fn(usize) -> bool {
    |q: usize| is_blocked_candidate(pkgs, flags, criteria, q as int)
}

/// The candidates in release order.
pub open spec fn release_set(
    pkgs: Seq<Package>,
    order: Seq<usize>,
    flags: Seq<Set<CrateStateFlags>>,
    criteria: SelectionCriteria,
) -> Seq<usize> {
    order.filter(candidate_test(pkgs, flags, criteria.traversal()))
}

/// The blocked candidates in release order.
pub open spec fn blocked_set(
    pkgs: Seq<Package>,
    order: Seq<usize>,
    flags: Seq<Set<CrateStateFlags>>,
    criteria: SelectionCriteria,
) -> Seq<usize> {
    order.filter(blocked_test(pkgs, flags, criteria))
}

/// One candidate that blocks the release, with the flags that block it.
#[derive(Clone, PartialEq, Eq, Debug)]
pub struct BlockedCrate {
    /// The index of the package.
    pub package: usize,
    /// The name of the package.
    pub name: String,
    /// Its blocking flags that the policy does not cover.
    pub blockers: FlagSet,
}

/// The release violates the policy: these candidates are blocked.
#[derive(Clone, PartialEq, Eq, Debug)]
pub struct SelectionError {
    pub blocked: Vec<BlockedCrate>,
}

/// `entry` reports package `q` with its name and its uncovered blockers.
pub open spec fn reports(
    entry: BlockedCrate,
    pkgs: Seq<Package>,
    flags: Seq<Set<CrateStateFlags>>,
    criteria: SelectionCriteria,
    q: usize,
) -> bool {
    &&& entry.package == q
    &&& entry.name@ == pkgs[q as int].name@
    &&& entry.blockers@ == blockers_of(flags, criteria, q as int)
}

/// What a selection run answers on the flags `flags`: the release set if no
/// candidate is blocked, else every blocked candidate.
pub open spec fn is_selection_outcome(
    r: Result<Vec<usize>, SelectionError>,
    pkgs: Seq<Package>,
    order: Seq<usize>,
    flags: Seq<Set<CrateStateFlags>>,
    criteria: SelectionCriteria,
) -> bool {
    let blocked = blocked_set(pkgs, order, flags, criteria);
    match r {
        Ok(selection) => blocked.len() == 0 && selection@ == release_set(
            pkgs,
            order,
            flags,
            criteria,
        ),
        Err(e) => {
            &&& blocked.len() > 0
            &&& e.blocked@.len() == blocked.len()
            &&& forall|k: int|
                0 <= k < blocked.len() ==> reports(
                    #[trigger] e.blocked@[k],
                    pkgs,
                    flags,
                    criteria,
                    blocked[k],
                )
        },
    }
}

/// The words with which the text of a selection error begins.
pub open spec fn error_heading() -> Seq<char> {
    "the following crates are blocked but required for the release:"@
}

/// The labels of the first `k` flags of `flags`, a space before each.
pub open spec fn labels_text(flags: Seq<CrateStateFlags>, k: int) -> Seq<char>
    decreases k,
{
    if k <= 0 {
        Seq::empty()
    } else {
        labels_text(flags, k - 1) + seq![' '] + flag_label(flags[k - 1])
    }
}

/// The line for one blocked candidate: a line break, its name, a colon, and
/// its blockers in the order of the vocabulary.
pub open spec fn line_text(entry: BlockedCrate) -> Seq<char> {
    let listed = vocabulary().filter(|flag: CrateStateFlags| entry.blockers@.contains(flag));
    seq!['\n'] + entry.name@ + seq![':'] + labels_text(listed, listed.len() as int)
}

/// The lines for the first `k` blocked candidates.
pub open spec fn lines_text(blocked: Seq<BlockedCrate>, k: int) -> Seq<char>
    decreases k,
{
    if k <= 0 {
        Seq::empty()
    } else {
        lines_text(blocked, k - 1) + line_text(blocked[k - 1])
    }
}

/// The text of a selection error: the heading and one line for each blocked
/// candidate.
pub open spec fn error_text(blocked: Seq<BlockedCrate>) -> Seq<char> {
    error_heading() + lines_text(blocked, blocked.len() as int)
}

/// The word `blocked` stands in `text`.
pub open spec fn says_blocked(text: Seq<char>) -> bool {
    exists|at: int| 0 <= at && at + 7 <= text.len() && #[trigger] text.subrange(at, at + 7) == "blocked"@
}

/// The text of every selection error holds the word `blocked`.
pub proof fn lemma_error_text_says_blocked(blocked: Seq<BlockedCrate>)
    ensures
        says_blocked(error_text(blocked)),
{
    reveal_strlit("the following crates are blocked but required for the release:");
    reveal_strlit("blocked");
    let text = error_text(blocked);
    assert(error_heading().len() == 62);
    assert(text.subrange(25, 25int + 7) =~= "blocked"@);
}

impl SelectionError {
    /// The error as text. It names every blocked candidate with its
    /// blockers, and holds the word `blocked`.
    pub fn message(&self) -> (r: String)
        ensures
            r@ == error_text(self.blocked@),
            says_blocked(r@),
    {
        let mut text = String::from_str(
            "the following crates are blocked but required for the release:",
        );
        let n = self.blocked.len();
        let mut k: usize = 0;
        while k < n
            invariant
                n == self.blocked@.len(),
                k <= n,
                text@ == error_heading() + lines_text(self.blocked@, k as int),
            decreases n - k,
        {
            let entry = &self.blocked[k];
            let labels = entry.blockers.to_vec();
            let ghost start = text@;
            text.append("\n");
            text.append(entry.name.as_str());
            text.append(":");
            proof {
                reveal_strlit("\n");
                reveal_strlit(":");
                assert("\n"@ =~= seq!['\n']);
                assert(":"@ =~= seq![':']);
            }
            let m = labels.len();
            let mut j: usize = 0;
            while j < m
                invariant
                    m == labels@.len(),
                    j <= m,
                    text@ == start + seq!['\n'] + entry.name@ + seq![':'] + labels_text(
                        labels@,
                        j as int,
                    ),
                decreases m - j,
            {
                text.append(" ");
                text.append(labels[j].label());
                proof {
                    reveal_strlit(" ");
                    assert(" "@ =~= seq![' ']);
                    assert(text@ =~= start + seq!['\n'] + entry.name@ + seq![':'] + labels_text(
                        labels@,
                        j as int + 1,
                    ));
                }
                j += 1;
            }
            proof {
                assert(text@ =~= error_heading() + lines_text(self.blocked@, k as int + 1));
            }
            k += 1;
        }
        proof {
            lemma_error_text_says_blocked(self.blocked@);
        }
        text
    }
}

/// For every package, whether it carries `flag`.
pub fn marks_of(flags: &Vec<FlagSet>, flag: CrateStateFlags) -> (r: Vec<bool>)
    ensures
        r@ == flag_marks(flag_views(flags@), flag),
{
    let n = flags.len();
    let mut r: Vec<bool> = Vec::new();
    let mut i: usize = 0;
    while i < n
        invariant
            n == flags@.len(),
            i <= n,
            r@.len() == i,
            forall|j: int| 0 <= j < i ==> r@[j] == (#[trigger] flags@[j])@.contains(flag),
        decreases n - i,
    {
        r.push(flags[i].contains(flag));
        i += 1;
    }
    assert(r@ =~= flag_marks(flag_views(flags@), flag));
    r
}

/// For every package, whether it is a release candidate.
pub fn candidates(graph: &PackageGraph, flags: &Vec<FlagSet>, filter: EdgeFilter) -> (r: Vec<bool>)
    requires
        graph.wf(),
        flags@.len() == graph@.len(),
    ensures
        r@.len() == graph@.len(),
        forall|i: int|
            0 <= i < graph@.len() ==> #[trigger] r@[i] == is_candidate(
                graph@,
                flag_views(flags@),
                filter,
                i,
            ),
{
    let n = graph.len();
    let matched = marks_of(flags, CrateStateFlags::Matched);
    let changed = marks_of(flags, CrateStateFlags::ChangedSincePreviousRelease);
    let mut r: Vec<bool> = Vec::new();
    let mut i: usize = 0;
    while i < n
        invariant
            graph.wf(),
            n == graph@.len(),
            n == flags@.len(),
            i <= n,
            matched@ == flag_marks(flag_views(flags@), CrateStateFlags::Matched),
            changed@ == flag_marks(
                flag_views(flags@),
                CrateStateFlags::ChangedSincePreviousRelease,
            ),
            r@.len() == i,
            forall|j: int|
                0 <= j < i ==> #[trigger] r@[j] == is_candidate(
                    graph@,
                    flag_views(flags@),
                    filter,
                    j,
                ),
        decreases n - i,
    {
        let is_one = if !changed[i] {
            false
        } else if matched[i] {
            true
        } else {
            let marks = graph.connected_to(i, filter, &changed);
            let found = any_in_both(&matched, &marks);
            proof {
                if found {
                    let s = choose|s: int|
                        0 <= s < matched@.len() && matched@[s] && #[trigger] marks@[s];
                    assert(connected(graph@, s, i as int, filter, changed@));
                }
                if exists|s: int|
                    0 <= s < graph@.len() && matched@[s] && #[trigger] connected(
                        graph@,
                        s,
                        i as int,
                        filter,
                        changed@,
                    ) {
                    let s = choose|s: int|
                        0 <= s < graph@.len() && matched@[s] && #[trigger] connected(
                            graph@,
                            s,
                            i as int,
                            filter,
                            changed@,
                        );
                    assert(marks@[s]);
                }
            }
            found
        };
        r.push(is_one);
        i += 1;
    }
    r
}

/// The verdict on every package: its flags, the allow-lists of the policy,
/// and the mark of the expansion, which is set on the candidates that are not
/// matched.
pub fn crate_states(graph: &PackageGraph, criteria: &SelectionCriteria, flags: &Vec<FlagSet>) -> (r:
    Vec<CrateState>)
    requires
        graph.wf(),
        flags@.len() == graph@.len(),
    ensures
        r@.len() == graph@.len(),
        forall|i: int|
            0 <= i < graph@.len() ==> {
                &&& (#[trigger] r@[i]).flag_set() == flags@[i]@
                &&& r@[i].dev_dependency_allowance() == criteria.dev_dependency_allowance()
                &&& r@[i].selection_allowance() == criteria.selection_allowance()
                &&& r@[i].is_pulled_in() == (is_candidate(
                    graph@,
                    flag_views(flags@),
                    criteria.traversal(),
                    i,
                ) && !flags@[i]@.contains(CrateStateFlags::Matched))
                &&& r@[i].spec_disallowed_blockers() == blockers_of(
                    flag_views(flags@),
                    *criteria,
                    i,
                )
            },
{
    let n = graph.len();
    let chosen = candidates(graph, flags, criteria.traversal_filter());
    let mut r: Vec<CrateState> = Vec::new();
    let mut i: usize = 0;
    while i < n
        invariant
            n == graph@.len(),
            n == flags@.len(),
            i <= n,
            chosen@.len() == n,
            forall|j: int|
                0 <= j < n ==> #[trigger] chosen@[j] == is_candidate(
                    graph@,
                    flag_views(flags@),
                    criteria.traversal(),
                    j,
                ),
            r@.len() == i,
            forall|j: int|
                0 <= j < i ==> {
                    &&& (#[trigger] r@[j]).flag_set() == flags@[j]@
                    &&& r@[j].dev_dependency_allowance() == criteria.dev_dependency_allowance()
                    &&& r@[j].selection_allowance() == criteria.selection_allowance()
                    &&& r@[j].is_pulled_in() == (is_candidate(
                        graph@,
                        flag_views(flags@),
                        criteria.traversal(),
                        j,
                    ) && !flags@[j]@.contains(CrateStateFlags::Matched))
                    &&& r@[j].spec_disallowed_blockers() == blockers_of(
                        flag_views(flags@),
                        *criteria,
                        j,
                    )
                },
        decreases n - i,
    {
        let pulled_in = chosen[i] && !flags[i].contains(CrateStateFlags::Matched);
        let state = CrateState::new(
            flags[i],
            criteria.allowed_dev_dependency_blockers(),
            criteria.allowed_selection_blockers(),
        ).with_pulled_in(pulled_in);
        r.push(state);
        i += 1;
    }
    r
}

/// The release set for the flags `flags`: the candidates in release order if
/// none of them is blocked, else the error that lists every blocked
/// candidate, in release order, with its uncovered blockers.
pub fn select_release(graph: &PackageGraph, criteria: &SelectionCriteria, flags: &Vec<FlagSet>) -> (r:
    Result<Vec<usize>, SelectionError>)
    requires
        graph.wf(),
        flags@.len() == graph@.len(),
    ensures
        is_selection_outcome(r, graph@, graph.release_order(), flag_views(flags@), *criteria),
{
    let n = graph.len();
    let states = crate_states(graph, criteria, flags);
    let chosen = candidates(graph, flags, criteria.traversal_filter());
    let order = graph.members();
    let ghost sets = flag_views(flags@);
    let ghost wanted = candidate_test(graph@, sets, criteria.traversal());
    let ghost stuck = blocked_test(graph@, sets, *criteria);
    let mut selection: Vec<usize> = Vec::new();
    let mut blocked: Vec<BlockedCrate> = Vec::new();
    let mut k: usize = 0;
    while k < n
        invariant
            n == graph@.len(),
            n == flags@.len(),
            k <= n,
            order@.len() == n,
            forall|m: int| 0 <= m < n ==> #[trigger] order@[m] < n,
            sets == flag_views(flags@),
            wanted == candidate_test(graph@, sets, criteria.traversal()),
            stuck == blocked_test(graph@, sets, *criteria),
            chosen@.len() == n,
            forall|j: int|
                0 <= j < n ==> #[trigger] chosen@[j] == is_candidate(
                    graph@,
                    sets,
                    criteria.traversal(),
                    j,
                ),
            states@.len() == n,
            forall|j: int|
                0 <= j < n ==> (#[trigger] states@[j]).spec_disallowed_blockers() == blockers_of(
                    sets,
                    *criteria,
                    j,
                ),
            selection@ == order@.take(k as int).filter(wanted),
            blocked@.len() == order@.take(k as int).filter(stuck).len(),
            forall|m: int|
                0 <= m < blocked@.len() ==> reports(
                    #[trigger] blocked@[m],
                    graph@,
                    sets,
                    *criteria,
                    order@.take(k as int).filter(stuck)[m],
                ),
        decreases n - k,
    {
        let q = order[k];
        proof {
            let before = order@.take(k as int);
            assert(order@.take(k + 1) =~= before.push(q));
            before.lemma_filter_push(q, wanted);
            before.lemma_filter_push(q, stuck);
        }
        if chosen[q] {
            let blockers = states[q].disallowed_blockers();
            if !blockers.is_empty() {
                blocked.push(
                    BlockedCrate { package: q, name: graph.package(q).name.clone(), blockers },
                );
            }
            selection.push(q);
        }
        k += 1;
    }
    proof {
        assert(order@.take(k as int) =~= order@);
    }
    if blocked.len() > 0 {
        Err(SelectionError { blocked })
    } else {
        Ok(selection)
    }
}

/// The packages to release, in release order, for a workspace, a policy and
/// a change set; or the error that lists the candidates that the policy
/// blocks. With an empty change set the run succeeds with an empty release
/// set.
pub fn release_selection(
    graph: &PackageGraph,
    criteria: &SelectionCriteria,
    changes: &Vec<String>,
) -> (r: Result<Vec<usize>, SelectionError>)
    requires
        graph.wf(),
    ensures
        is_selection_outcome(
            r,
            graph@,
            graph.release_order(),
            diagnosis(graph@, *criteria, changes@),
            *criteria,
        ),
        changes@.len() == 0 ==> (r matches Ok(selection) && selection@.len() == 0),
{
    let flags = evaluate(graph, criteria, changes);
    assert(flag_views(flags@) =~= diagnosis(graph@, *criteria, changes@));
    let r = select_release(graph, criteria, &flags);
    proof {
        if changes@.len() == 0 {
            lemma_no_changes_no_candidates(graph@, graph.release_order(), *criteria, changes@);
        }
    }
    r
}

/// A workspace without changed files has no release candidate: the release
/// set and the set of blocked candidates are both empty.
pub proof fn lemma_no_changes_no_candidates(
    pkgs: Seq<Package>,
    order: Seq<usize>,
    criteria: SelectionCriteria,
    changes: Seq<String>,
)
    requires
        changes.len() == 0,
    ensures
        forall|i: int|
            !#[trigger] is_candidate(
                pkgs,
                diagnosis(pkgs, criteria, changes),
                criteria.traversal(),
                i,
            ),
        release_set(pkgs, order, diagnosis(pkgs, criteria, changes), criteria).len() == 0,
        blocked_set(pkgs, order, diagnosis(pkgs, criteria, changes), criteria).len() == 0,
{
    let flags = diagnosis(pkgs, criteria, changes);
    assert forall|i: int| !#[trigger] is_candidate(pkgs, flags, criteria.traversal(), i) by {
        if 0 <= i < pkgs.len() {
            assert(!is_under(changes, pkgs[i].root@));
            assert(!flags[i].contains(CrateStateFlags::ChangedSincePreviousRelease));
        }
    }
    order.lemma_all_neg_filter_empty(candidate_test(pkgs, flags, criteria.traversal()));
    order.lemma_all_neg_filter_empty(blocked_test(pkgs, flags, criteria));
}

/// The candidates are closed under changed dependencies: a package that a
/// candidate depends on through an admitted edge, and that has changed, is
/// a candidate too.
pub proof fn lemma_candidates_closed(
    pkgs: Seq<Package>,
    flags: Seq<Set<CrateStateFlags>>,
    filter: EdgeFilter,
    package: int,
    dependency: int,
)
    requires
        flags.len() == pkgs.len(),
        is_candidate(pkgs, flags, filter, package),
        has_edge(pkgs, package, dependency, filter),
        flags[dependency].contains(CrateStateFlags::ChangedSincePreviousRelease),
    ensures
        is_candidate(pkgs, flags, filter, dependency),
{
    let matched = flag_marks(flags, CrateStateFlags::Matched);
    let changed = flag_marks(flags, CrateStateFlags::ChangedSincePreviousRelease);
    if !matched[dependency] {
        if matched[package] {
            let chain = seq![package, dependency];
            assert(chain[0] == package && chain[1] == dependency);
            assert(is_chain(pkgs, chain, filter));
            assert(chain_within(chain, changed));
            assert(chain.first() == package && chain.last() == dependency);
            assert(connected(pkgs, package, dependency, filter, changed));
        } else {
            let s = choose|s: int|
                0 <= s < pkgs.len() && matched[s] && #[trigger] connected(
                    pkgs,
                    s,
                    package,
                    filter,
                    changed,
                );
            let chain = choose|chain: Seq<int>|
                #[trigger] is_chain(pkgs, chain, filter) && chain_within(chain, changed)
                    && chain.first() == s && chain.last() == package;
            lemma_chain_append(pkgs, chain, dependency, filter);
            let longer = chain.push(dependency);
            assert forall|t: int| 0 <= t < longer.len() implies 0 <= #[trigger] longer[t]
                < changed.len() && changed[longer[t]] by {
                if t < chain.len() {
                    assert(longer[t] == chain[t]);
                }
            }
            assert(chain_within(longer, changed));
            assert(connected(pkgs, s, dependency, filter, changed));
        }
    }
}

/// Every candidate is matched and changed itself, or is reached from a
/// package that is: nothing enters the release set without a matched and
/// changed package behind it.
pub proof fn lemma_candidates_come_from_seeds(
    pkgs: Seq<Package>,
    flags: Seq<Set<CrateStateFlags>>,
    filter: EdgeFilter,
    i: int,
)
    requires
        flags.len() == pkgs.len(),
        is_candidate(pkgs, flags, filter, i),
    ensures
        exists|s: int|
            0 <= s < pkgs.len() && #[trigger] flags[s].contains(CrateStateFlags::Matched)
                && flags[s].contains(CrateStateFlags::ChangedSincePreviousRelease),
{
    let matched = flag_marks(flags, CrateStateFlags::Matched);
    let changed = flag_marks(flags, CrateStateFlags::ChangedSincePreviousRelease);
    if matched[i] {
        assert(flags[i].contains(CrateStateFlags::Matched));
    } else {
        let s = choose|s: int|
            0 <= s < pkgs.len() && matched[s] && #[trigger] connected(pkgs, s, i, filter, changed);
        let chain = choose|chain: Seq<int>|
            #[trigger] is_chain(pkgs, chain, filter) && chain_within(chain, changed)
                && chain.first() == s && chain.last() == i;
        assert(changed[chain[0]]);
        assert(flags[s].contains(CrateStateFlags::Matched));
    }
}

} // verus!
