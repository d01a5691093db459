//! The package graph of a workspace: built once from the packages, read-only
//! afterwards.

use crate::outside::{version_is_valid, version_parses};
use crate::package::{all_edges, Dependency, EdgeFilter, Package};
use crate::topology::{
    chain_within, connected, dependencies_known, depends_transitively, has_cycle, has_edge,
    is_chain, is_edge_at, is_least_ready, is_ready, is_release_order, lemma_chain_prepend,
    lemma_chain_tail, lemma_least_ready_agrees, lemma_no_self_dependency,
    lemma_placed_before_push, lemma_release_order_acyclic, lemma_release_order_no_duplicates,
    lemma_release_order_places_all, lemma_release_order_respects_dependencies,
    lemma_stuck_has_cycle, names_unique, placed_before,
};
use vstd::prelude::*;

verus! {

/// Why a workspace cannot be loaded.
#[derive(Clone, Copy, PartialEq, Eq, Debug, Hash, Structural)]
pub enum LoadError {
    /// Two packages share a name.
    DuplicateName,
    /// The version of some package is no semantic version.
    MalformedVersion,
    /// Some dependency edge names a package outside the workspace.
    UnknownDependency,
    /// Some package depends on itself, directly or indirectly.
    CyclicDependency,
}

/// The version of every package is a semantic version.
pub open spec fn versions_valid(pkgs: Seq<Package>) -> bool {
    forall|i: int| 0 <= i < pkgs.len() ==> version_is_valid((#[trigger] pkgs[i]).version@)
}

/// The error with which loading `pkgs` fails, if it fails. Where several
/// faults are present, the first of this list is reported.
pub open spec fn load_failure(pkgs: Seq<Package>) -> Option<LoadError> {
    if !names_unique(pkgs) {
        Some(LoadError::DuplicateName)
    } else if !versions_valid(pkgs) {
        Some(LoadError::MalformedVersion)
    } else if !dependencies_known(pkgs) {
        Some(LoadError::UnknownDependency)
    } else if has_cycle(pkgs) {
        Some(LoadError::CyclicDependency)
    } else {
        None
    }
}

/// The index of the package called `name`.
pub open spec fn member_index(pkgs: Seq<Package>, name: Seq<char>) -> int {
    choose|i: int| 0 <= i < pkgs.len() && (#[trigger] pkgs[i]).name@ == name
}

/// The packages that package `i` depends on directly, one entry for each of
/// its dependency edges that `filter` admits, in the order of declaration.
pub open spec fn direct_dependencies(pkgs: Seq<Package>, i: int, filter: EdgeFilter) -> Seq<usize> {
    pkgs[i].dependencies@.filter(|d: Dependency| filter.admits(d)).map_values(
        |d: Dependency| member_index(pkgs, d.name@) as usize,
    )
}

/// The test that a package depends on `package`, directly or indirectly,
/// along edges that `filter` admits.
pub open spec fn depends_on(pkgs: Seq<Package>, package: int, filter: EdgeFilter) -> spec_fn(
    usize,
) -> bool {
    |q: usize| depends_transitively(pkgs, q as int, package, filter)
}

/// The dependants of `package`: its transitive closure under reversed
/// dependency edges that `filter` admits, listed in release order.
pub open spec fn dependants(
    pkgs: Seq<Package>,
    order: Seq<usize>,
    package: int,
    filter: EdgeFilter,
) -> Seq<usize> {
    order.filter(depends_on(pkgs, package, filter))
}

/// The test that a package depends on `package` directly, through an edge
/// that `filter` admits.
pub open spec fn depends_directly_on(pkgs: Seq<Package>, package: int, filter: EdgeFilter) -> spec_fn(
    usize,
) -> bool {
    |q: usize| has_edge(pkgs, q as int, package, filter)
}

/// The direct dependants of `package`: the packages with an admitted edge to
/// it, listed in release order.
pub open spec fn direct_dependants(
    pkgs: Seq<Package>,
    order: Seq<usize>,
    package: int,
    filter: EdgeFilter,
) -> Seq<usize> {
    order.filter(depends_directly_on(pkgs, package, filter))
}

spec fn is_target(pkgs: Seq<Package>, i: int, k: int, t: int) -> bool {
    &&& 0 <= t < pkgs.len()
    &&& pkgs[t].name@ == pkgs[i].dependencies@[k].name@
}

spec fn resolved(pkgs: Seq<Package>, targets: Seq<Vec<usize>>) -> bool {
    &&& targets.len() == pkgs.len()
    &&& forall|i: int|
        0 <= i < pkgs.len() ==> (#[trigger] targets[i])@.len() == pkgs[i].dependencies@.len()
    &&& forall|i: int, k: int|
        0 <= i < pkgs.len() && 0 <= k < pkgs[i].dependencies@.len() ==> is_target(
            pkgs,
            i,
            k,
            #[trigger] targets[i]@[k] as int,
        )
}

proof fn lemma_edge_gives_target(
    pkgs: Seq<Package>,
    targets: Seq<Vec<usize>>,
    from: int,
    to: int,
    filter: EdgeFilter,
) -> (k: int)
    requires
        names_unique(pkgs),
        resolved(pkgs, targets),
        has_edge(pkgs, from, to, filter),
    ensures
        0 <= k < pkgs[from].dependencies@.len(),
        targets[from]@[k] == to,
        filter.admits(pkgs[from].dependencies@[k]),
{
    let k = choose|k: int| is_edge_at(pkgs, from, to, filter, k);
    let t = targets[from]@[k] as int;
    assert(is_target(pkgs, from, k, t));
    if t < to {
        assert(pkgs[t].name@ != pkgs[to].name@);
    }
    if to < t {
        assert(pkgs[to].name@ != pkgs[t].name@);
    }
    k
}

proof fn lemma_target_gives_edge(
    pkgs: Seq<Package>,
    targets: Seq<Vec<usize>>,
    from: int,
    k: int,
    filter: EdgeFilter,
)
    requires
        resolved(pkgs, targets),
        0 <= from < pkgs.len(),
        0 <= k < pkgs[from].dependencies@.len(),
        filter.admits(pkgs[from].dependencies@[k]),
    ensures
        has_edge(pkgs, from, targets[from]@[k] as int, filter),
{
    let t = targets[from]@[k] as int;
    assert(is_target(pkgs, from, k, t));
    assert(is_edge_at(pkgs, from, t, filter, k));
}

proof fn lemma_resolved_known(pkgs: Seq<Package>, targets: Seq<Vec<usize>>)
    requires
        resolved(pkgs, targets),
    ensures
        dependencies_known(pkgs),
{
    assert forall|i: int, k: int|
        0 <= i < pkgs.len() && 0 <= k < pkgs[i].dependencies@.len() implies crate::topology::is_member(
        pkgs,
        (#[trigger] pkgs[i].dependencies@[k]).name@,
    ) by {
        let t = targets[i]@[k] as int;
        assert(is_target(pkgs, i, k, t));
        assert(pkgs[t].name@ == pkgs[i].dependencies@[k].name@);
    }
}

proof fn lemma_target_is_member_index(
    pkgs: Seq<Package>,
    targets: Seq<Vec<usize>>,
    i: int,
    k: int,
)
    requires
        names_unique(pkgs),
        resolved(pkgs, targets),
        0 <= i < pkgs.len(),
        0 <= k < pkgs[i].dependencies@.len(),
    ensures
        targets[i]@[k] as int == member_index(pkgs, pkgs[i].dependencies@[k].name@),
{
    let t = targets[i]@[k] as int;
    let name = pkgs[i].dependencies@[k].name@;
    assert(is_target(pkgs, i, k, t));
    assert(pkgs[t].name@ == name);
    let m = member_index(pkgs, name);
    assert(0 <= m < pkgs.len() && pkgs[m].name@ == name);
    if t < m {
        assert(pkgs[t].name@ != pkgs[m].name@);
    }
    if m < t {
        assert(pkgs[m].name@ != pkgs[t].name@);
    }
}

/// With every package allowed, to be connected is to depend transitively.
pub proof fn lemma_connected_unrestricted(
    pkgs: Seq<Package>,
    from: int,
    to: int,
    filter: EdgeFilter,
    allowed: Seq<bool>,
)
    requires
        allowed.len() == pkgs.len(),
        forall|i: int| 0 <= i < allowed.len() ==> allowed[i],
    ensures
        connected(pkgs, from, to, filter, allowed) == depends_transitively(pkgs, from, to, filter),
{
    if depends_transitively(pkgs, from, to, filter) {
        let chain = choose|chain: Seq<int>|
            #[trigger] is_chain(pkgs, chain, filter) && chain.first() == from && chain.last()
                == to;
        assert forall|s: int| 0 <= s < chain.len() implies 0 <= #[trigger] chain[s] < allowed.len()
            && allowed[chain[s]] by {
            if s < chain.len() - 1 {
                assert(has_edge(pkgs, chain[s], chain[s + 1], filter));
            } else {
                assert(has_edge(pkgs, chain[s - 1], chain[s - 1 + 1], filter));
            }
        }
        assert(chain_within(chain, allowed));
    }
}

/// One step of a search towards `target`: package `q` at position `k` of the
/// release order is connected to `target` exactly when it is allowed and one
/// of its admitted edges leads to `target` itself or to a package that is
/// connected to it.
proof fn lemma_connected_step(
    pkgs: Seq<Package>,
    targets: Seq<Vec<usize>>,
    order: Seq<usize>,
    k: int,
    target: int,
    filter: EdgeFilter,
    allowed: Seq<bool>,
    marks: Seq<bool>,
)
    requires
        names_unique(pkgs),
        resolved(pkgs, targets),
        is_release_order(pkgs, order),
        0 <= k < order.len(),
        0 <= target < pkgs.len(),
        allowed.len() == pkgs.len(),
        marks.len() == pkgs.len(),
        forall|q: int|
            0 <= q < pkgs.len() && placed_before(order, k, q) ==> marks[q] == connected(
                pkgs,
                q,
                target,
                filter,
                allowed,
            ),
    ensures
        connected(pkgs, order[k] as int, target, filter, allowed) == (allowed[order[k] as int]
            && exists|e: int| #[trigger]
            leads_on(pkgs, targets, order[k] as int, e, target, filter, allowed, marks)),
{
    let q = order[k] as int;
    assert(is_least_ready(pkgs, order, k));
    if connected(pkgs, q, target, filter, allowed) {
        let chain = choose|chain: Seq<int>|
            #[trigger] is_chain(pkgs, chain, filter) && chain_within(chain, allowed)
                && chain.first() == q && chain.last() == target;
        assert(allowed[chain[0]]);
        assert(has_edge(pkgs, chain[0], chain[0int + 1], filter));
        let e = lemma_edge_gives_target(pkgs, targets, q, chain[1], filter);
        if chain.len() == 2 {
            assert(chain[1] == target);
            assert(allowed[chain[1]]);
        } else {
            lemma_chain_tail(pkgs, chain, filter);
            let tail = chain.subrange(1, chain.len() as int);
            assert forall|s: int| 0 <= s < tail.len() implies 0 <= #[trigger] tail[s]
                < allowed.len() && allowed[tail[s]] by {
                assert(tail[s] == chain[s + 1]);
            }
            assert(connected(pkgs, chain[1], target, filter, allowed));
            lemma_release_order_respects_dependencies(pkgs, order, k, chain[1], filter);
        }
        assert(leads_on(pkgs, targets, q, e, target, filter, allowed, marks));
    }
    if allowed[q] && exists|e: int| #[trigger]
        leads_on(pkgs, targets, q, e, target, filter, allowed, marks) {
        let e = choose|e: int| #[trigger]
            leads_on(pkgs, targets, q, e, target, filter, allowed, marks);
        let t = targets[q]@[e] as int;
        lemma_target_gives_edge(pkgs, targets, q, e, filter);
        if t == target && allowed[target] {
            let chain = seq![q, target];
            assert(chain[0] == q && chain[1] == target);
            assert(is_chain(pkgs, chain, filter));
            assert(chain_within(chain, allowed));
            assert(chain.first() == q && chain.last() == target);
        } else {
            lemma_release_order_respects_dependencies(pkgs, order, k, t, filter);
            assert(connected(pkgs, t, target, filter, allowed));
            let rest = choose|chain: Seq<int>|
                #[trigger] is_chain(pkgs, chain, filter) && chain_within(chain, allowed)
                    && chain.first() == t && chain.last() == target;
            lemma_chain_prepend(pkgs, q, rest, filter);
            let chain = seq![q] + rest;
            assert forall|s: int| 0 <= s < chain.len() implies 0 <= #[trigger] chain[s]
                < allowed.len() && allowed[chain[s]] by {
                if s > 0 {
                    assert(chain[s] == rest[s - 1]);
                }
            }
            assert(chain_within(chain, allowed));
        }
    }
}

/// The `e`-th edge of package `q` is admitted and leads to `target`, which is
/// allowed, or to a package that is marked.
spec fn leads_on(
    pkgs: Seq<Package>,
    targets: Seq<Vec<usize>>,
    q: int,
    e: int,
    target: int,
    filter: EdgeFilter,
    allowed: Seq<bool>,
    marks: Seq<bool>,
) -> bool {
    &&& 0 <= e < pkgs[q].dependencies@.len()
    &&& filter.admits(pkgs[q].dependencies@[e])
    &&& ((targets[q]@[e] == target && allowed[target]) || marks[targets[q]@[e] as int])
}

/// Whether no two packages share a name.
fn names_are_unique(packages: &Vec<Package>) -> (r: bool)
    ensures
        r == names_unique(packages@),
{
    let n = packages.len();
    let mut j: usize = 0;
    while j < n
        invariant
            n == packages@.len(),
            j <= n,
            forall|a: int, b: int| 0 <= a < b < j ==> packages@[a].name@ != packages@[b].name@,
        decreases n - j,
    {
        let mut i: usize = 0;
        while i < j
            invariant
                n == packages@.len(),
                i <= j < n,
                forall|a: int, b: int| 0 <= a < b < j ==> packages@[a].name@ != packages@[b].name@,
                forall|a: int| 0 <= a < i ==> packages@[a].name@ != packages@[j as int].name@,
            decreases j - i,
        {
            if packages[i].name == packages[j].name {
                return false;
            }
            i += 1;
        }
        j += 1;
    }
    true
}

/// Whether every version is a semantic version.
fn versions_parse(packages: &Vec<Package>) -> (r: bool)
    ensures
        r == versions_valid(packages@),
{
    let n = packages.len();
    let mut i: usize = 0;
    while i < n
        invariant
            n == packages@.len(),
            i <= n,
            forall|a: int| 0 <= a < i ==> version_is_valid((#[trigger] packages@[a]).version@),
        decreases n - i,
    {
        if !version_parses(packages[i].version.as_str()) {
            return false;
        }
        i += 1;
    }
    true
}

/// The index of the first package called `name`.
fn find_index(packages: &Vec<Package>, name: &String) -> (r: Option<usize>)
    ensures
        match r {
            Some(i) => i < packages@.len() && packages@[i as int].name@ == name@,
            None => !crate::topology::is_member(packages@, name@),
        },
{
    let n = packages.len();
    let mut i: usize = 0;
    while i < n
        invariant
            n == packages@.len(),
            i <= n,
            forall|a: int| 0 <= a < i ==> (#[trigger] packages@[a]).name@ != name@,
        decreases n - i,
    {
        if packages[i].name == *name {
            return Some(i);
        }
        i += 1;
    }
    None
}

/// For each edge of package `i`, the index of the package it names.
fn resolve_package(packages: &Vec<Package>, i: usize) -> (r: Option<Vec<usize>>)
    requires
        i < packages@.len(),
    ensures
        match r {
            Some(row) => {
                &&& row@.len() == packages@[i as int].dependencies@.len()
                &&& forall|k: int|
                    0 <= k < row@.len() ==> is_target(packages@, i as int, k, #[trigger] row@[k] as int)
            },
            None => !dependencies_known(packages@),
        },
{
    let deps = &packages[i].dependencies;
    let mut row: Vec<usize> = Vec::new();
    let mut k: usize = 0;
    while k < deps.len()
        invariant
            i < packages@.len(),
            deps@ == packages@[i as int].dependencies@,
            k <= deps@.len(),
            row@.len() == k,
            forall|k2: int|
                0 <= k2 < k ==> is_target(packages@, i as int, k2, #[trigger] row@[k2] as int),
        decreases deps.len() - k,
    {
        match find_index(packages, &deps[k].name) {
            Some(t) => {
                row.push(t);
            },
            None => {
                assert(!crate::topology::is_member(
                    packages@,
                    packages@[i as int].dependencies@[k as int].name@,
                ));
                return None;
            },
        }
        k += 1;
    }
    Some(row)
}

/// For each edge of each package, the index of the package it names; `None`
/// if some edge names no package of the workspace.
fn resolve(packages: &Vec<Package>) -> (r: Option<Vec<Vec<usize>>>)
    ensures
        match r {
            Some(targets) => resolved(packages@, targets@),
            None => !dependencies_known(packages@),
        },
{
    let n = packages.len();
    let mut targets: Vec<Vec<usize>> = Vec::new();
    let mut i: usize = 0;
    while i < n
        invariant
            n == packages@.len(),
            i <= n,
            targets@.len() == i,
            forall|a: int|
                0 <= a < i ==> (#[trigger] targets@[a])@.len() == packages@[a].dependencies@.len(),
            forall|a: int, k: int|
                0 <= a < i && 0 <= k < packages@[a].dependencies@.len() ==> is_target(
                    packages@,
                    a,
                    k,
                    #[trigger] targets@[a]@[k] as int,
                ),
        decreases n - i,
    {
        match resolve_package(packages, i) {
            Some(row) => {
                targets.push(row);
            },
            None => {
                return None;
            },
        }
        i += 1;
    }
    Some(targets)
}

/// Whether every dependency of package `i` is placed.
fn dependencies_placed(
    packages: &Vec<Package>,
    targets: &Vec<Vec<usize>>,
    placed: &Vec<bool>,
    order: &Vec<usize>,
    i: usize,
) -> (r: bool)
    requires
        names_unique(packages@),
        resolved(packages@, targets@),
        placed@.len() == packages@.len(),
        forall|p: int|
            0 <= p < packages@.len() ==> placed@[p] == placed_before(
                order@,
                order@.len() as int,
                p,
            ),
        i < packages@.len(),
    ensures
        r == (forall|j: int| #[trigger]
            has_edge(packages@, i as int, j, all_edges()) ==> placed_before(
                order@,
                order@.len() as int,
                j,
            )),
{
    let row = &targets[i];
    let mut k: usize = 0;
    while k < row.len()
        invariant
            names_unique(packages@),
            resolved(packages@, targets@),
            placed@.len() == packages@.len(),
            i < packages@.len(),
            forall|p: int|
                0 <= p < packages@.len() ==> placed@[p] == placed_before(
                    order@,
                    order@.len() as int,
                    p,
                ),
            row@ == targets@[i as int]@,
            k <= row@.len(),
            forall|k2: int| 0 <= k2 < k ==> placed@[#[trigger] row@[k2] as int],
        decreases row.len() - k,
    {
        proof {
            assert(is_target(packages@, i as int, k as int, targets@[i as int]@[k as int] as int));
        }
        if !placed[row[k]] {
            proof {
                lemma_target_gives_edge(packages@, targets@, i as int, k as int, all_edges());
            }
            return false;
        }
        k += 1;
    }
    proof {
        assert forall|j: int| #[trigger]
            has_edge(packages@, i as int, j, all_edges()) implies placed_before(
            order@,
            order@.len() as int,
            j,
        ) by {
            let e = lemma_edge_gives_target(packages@, targets@, i as int, j, all_edges());
            assert(placed@[row@[e] as int]);
        }
    }
    true
}

/// The first package, in the order of declaration, that is not placed while
/// all its dependencies are.
fn least_ready(
    packages: &Vec<Package>,
    targets: &Vec<Vec<usize>>,
    placed: &Vec<bool>,
    order: &Vec<usize>,
) -> (r: Option<usize>)
    requires
        names_unique(packages@),
        resolved(packages@, targets@),
        placed@.len() == packages@.len(),
        forall|p: int|
            0 <= p < packages@.len() ==> placed@[p] == placed_before(
                order@,
                order@.len() as int,
                p,
            ),
    ensures
        match r {
            Some(i) => {
                &&& i < packages@.len()
                &&& is_ready(packages@, order@, order@.len() as int, i as int)
                &&& forall|j: int|
                    0 <= j < i ==> !#[trigger] is_ready(packages@, order@, order@.len() as int, j)
            },
            None => forall|j: int|
                0 <= j < packages@.len() ==> !#[trigger] is_ready(
                    packages@,
                    order@,
                    order@.len() as int,
                    j,
                ),
        },
{
    let n = packages.len();
    let mut i: usize = 0;
    while i < n
        invariant
            names_unique(packages@),
            resolved(packages@, targets@),
            placed@.len() == packages@.len(),
            forall|p: int|
                0 <= p < packages@.len() ==> placed@[p] == placed_before(
                    order@,
                    order@.len() as int,
                    p,
                ),
            n == packages@.len(),
            i <= n,
            forall|j: int|
                0 <= j < i ==> !#[trigger] is_ready(packages@, order@, order@.len() as int, j),
        decreases n - i,
    {
        if !placed[i] {
            if dependencies_placed(packages, targets, placed, order, i) {
                return Some(i);
            }
        }
        i += 1;
    }
    None
}

/// The release order: again and again the first package that is ready is
/// placed, until all are placed or none is ready.
fn compute_order(packages: &Vec<Package>, targets: &Vec<Vec<usize>>) -> (r: Option<Vec<usize>>)
    requires
        names_unique(packages@),
        resolved(packages@, targets@),
    ensures
        match r {
            Some(order) => is_release_order(packages@, order@),
            None => has_cycle(packages@),
        },
{
    let n = packages.len();
    let mut placed: Vec<bool> = vec![false; n];
    let mut order: Vec<usize> = Vec::new();
    while order.len() < n
        invariant
            names_unique(packages@),
            resolved(packages@, targets@),
            n == packages@.len(),
            placed@.len() == n,
            order@.len() <= n,
            forall|p: int|
                0 <= p < n ==> placed@[p] == placed_before(order@, order@.len() as int, p),
            forall|m: int| 0 <= m < order@.len() ==> #[trigger] order@[m] < n,
            forall|k: int| 0 <= k < order@.len() ==> #[trigger] is_least_ready(packages@, order@, k),
        decreases n - order.len(),
    {
        match least_ready(packages, targets, &placed, &order) {
            Some(i) => {
                let ghost before = order@;
                let ghost c = order@.len() as int;
                placed.set(i, true);
                order.push(i);
                proof {
                    assert(order@ == before.push(i));
                    assert forall|p: int| 0 <= p < n implies placed@[p] == placed_before(
                        order@,
                        order@.len() as int,
                        p,
                    ) by {
                        lemma_placed_before_push(before, i, c, p);
                    }
                    assert forall|k: int| 0 <= k < order@.len() implies #[trigger] is_least_ready(
                        packages@,
                        order@,
                        k,
                    ) by {
                        if k < c {
                            assert(is_least_ready(packages@, before, k));
                            lemma_least_ready_agrees(packages@, before, order@, k);
                        } else {
                            assert(k == c);
                            assert(order@[c] == i);
                            assert forall|x: int|
                                is_ready(packages@, order@, c, x) == is_ready(
                                    packages@,
                                    before,
                                    c,
                                    x,
                                ) by {
                                crate::topology::lemma_ready_agrees(packages@, order@, before, c, x);
                            }
                            assert(is_ready(packages@, before, c, i as int));
                            assert(is_ready(packages@, order@, c, order@[c] as int));
                            assert forall|x: int| 0 <= x < order@[c] implies !#[trigger] is_ready(
                                packages@,
                                order@,
                                c,
                                x,
                            ) by {
                                assert(!is_ready(packages@, before, c, x));
                            }
                        }
                    }
                }
            },
            None => {
                proof {
                    lemma_stuck_has_cycle(packages@, order@);
                }
                return None;
            },
        }
    }
    Some(order)
}

/// The packages of a workspace with the edges between them. A value of this
/// type is a workspace that loaded: its names are unique, its edges stay
/// inside it, and it has no cycle.
#[derive(Clone, Debug)]
pub struct PackageGraph {
    packages: Vec<Package>,
    targets: Vec<Vec<usize>>,
    order: Vec<usize>,
}

impl View for PackageGraph {
    type V = Seq<Package>;

    /// The packages, in the order of their declaration.
    closed spec fn view(&self) -> Seq<Package> {
        self.packages@
    }
}

impl PackageGraph {
    /// The indices of the packages in the order of release.
    pub closed spec fn release_order(&self) -> Seq<usize> {
        self.order@
    }

    /// Each edge is held together with the index of the package it names.
    pub closed spec fn edges_resolved(&self) -> bool {
        resolved(self.packages@, self.targets@)
    }

    /// What holds of every graph that `try_new` returns.
    pub open spec fn wf(&self) -> bool {
        &&& names_unique(self@)
        &&& dependencies_known(self@)
        &&& !has_cycle(self@)
        &&& is_release_order(self@, self.release_order())
        &&& self.edges_resolved()
    }

    /// Builds the graph of a workspace, or says why the workspace is
    /// malformed.
    pub fn try_new(packages: Vec<Package>) -> (r: Result<PackageGraph, LoadError>)
        ensures
            match r {
                Ok(graph) => load_failure(packages@) is None && graph@ == packages@ && graph.wf(),
                Err(e) => load_failure(packages@) == Some(e),
            },
    {
        if !names_are_unique(&packages) {
            return Err(LoadError::DuplicateName);
        }
        if !versions_parse(&packages) {
            return Err(LoadError::MalformedVersion);
        }
        let targets = match resolve(&packages) {
            Some(targets) => targets,
            None => {
                return Err(LoadError::UnknownDependency);
            },
        };
        proof {
            lemma_resolved_known(packages@, targets@);
        }
        let order = match compute_order(&packages, &targets) {
            Some(order) => order,
            None => {
                return Err(LoadError::CyclicDependency);
            },
        };
        proof {
            lemma_release_order_acyclic(packages@, order@);
        }
        Ok(PackageGraph { packages, targets, order })
    }

    /// The number of packages.
    pub fn len(&self) -> (r: usize)
        ensures
            r == self@.len(),
    {
        self.packages.len()
    }

    /// The package at index `i`.
    pub fn package(&self, i: usize) -> (r: &Package)
        requires
            i < self@.len(),
        ensures
            *r == self@[i as int],
    {
        &self.packages[i]
    }

    /// The index of the package called `name`, if the workspace has one.
    pub fn index_of(&self, name: &String) -> (r: Option<usize>)
        requires
            self.wf(),
        ensures
            match r {
                Some(i) => i < self@.len() && self@[i as int].name@ == name@ && i
                    == member_index(self@, name@),
                None => !crate::topology::is_member(self@, name@),
            },
    {
        let r = find_index(&self.packages, name);
        proof {
            if let Some(i) = r {
                let m = member_index(self@, name@);
                assert(self@[i as int].name@ == name@);
                assert(0 <= m < self@.len() && self@[m].name@ == name@);
                if (i as int) < m {
                    assert(self@[i as int].name@ != self@[m].name@);
                }
                if m < i as int {
                    assert(self@[m].name@ != self@[i as int].name@);
                }
            }
        }
        r
    }

    /// The names of the packages listed by index in `indices`, in that order.
    pub fn names(&self, indices: &Vec<usize>) -> (r: Vec<String>)
        requires
            forall|k: int| 0 <= k < indices@.len() ==> #[trigger] indices@[k] < self@.len(),
        ensures
            r@.len() == indices@.len(),
            forall|k: int|
                0 <= k < indices@.len() ==> (#[trigger] r@[k])@ == self@[indices@[k] as int].name@,
    {
        let n = indices.len();
        let mut r: Vec<String> = Vec::new();
        let mut k: usize = 0;
        while k < n
            invariant
                n == indices@.len(),
                k <= n,
                forall|m: int| 0 <= m < indices@.len() ==> #[trigger] indices@[m] < self@.len(),
                r@.len() == k,
                forall|m: int|
                    0 <= m < k ==> (#[trigger] r@[m])@ == self@[indices@[m] as int].name@,
            decreases n - k,
        {
            r.push(self.packages[indices[k]].name.clone());
            k += 1;
        }
        r
    }

    /// Every package of the workspace, by index, in release order: each after
    /// all the packages it depends on, and where several may come next, the
    /// one declared first.
    pub fn members(&self) -> (r: &Vec<usize>)
        requires
            self.wf(),
        ensures
            r@ == self.release_order(),
            is_release_order(self@, r@),
            r@.len() == self@.len(),
            r@.no_duplicates(),
            forall|k: int| 0 <= k < r@.len() ==> #[trigger] r@[k] < self@.len(),
            forall|i: int| 0 <= i < self@.len() ==> placed_before(r@, r@.len() as int, i),
            forall|k: int, j: int|
                0 <= k < r@.len() && #[trigger] has_edge(self@, r@[k] as int, j, all_edges())
                    ==> placed_before(r@, k, j),
    {
        proof {
            lemma_release_order_no_duplicates(self@, self.order@);
            assert forall|i: int| 0 <= i < self@.len() implies placed_before(
                self.order@,
                self.order@.len() as int,
                i,
            ) by {
                lemma_release_order_places_all(self@, self.order@, i);
            }
            assert forall|k: int, j: int|
                0 <= k < self.order@.len() && #[trigger] has_edge(
                    self@,
                    self.order@[k] as int,
                    j,
                    all_edges(),
                ) implies placed_before(self.order@, k, j) by {
                lemma_release_order_respects_dependencies(self@, self.order@, k, j, all_edges());
            }
        }
        &self.order
    }

    /// The direct dependencies of `package` inside the workspace, one entry
    /// for each of its edges in the order of declaration; optional edges are
    /// left out if `exclude_optional` is set.
    pub fn dependencies_in_workspace(&self, package: usize, exclude_optional: bool) -> (r: Vec<
        usize,
    >)
        requires
            self.wf(),
            package < self@.len(),
        ensures
            r@ == direct_dependencies(
                self@,
                package as int,
                EdgeFilter { normal: true, development: true, optional: !exclude_optional },
            ),
            forall|k: int|
                0 <= k < r@.len() ==> has_edge(
                    self@,
                    package as int,
                    #[trigger] r@[k] as int,
                    EdgeFilter { normal: true, development: true, optional: !exclude_optional },
                ),
    {
        let filter = EdgeFilter { normal: true, development: true, optional: !exclude_optional };
        let deps = &self.packages[package].dependencies;
        let row = &self.targets[package];
        let ghost admitted = |d: Dependency| filter.admits(d);
        let ghost to_index = |d: Dependency| member_index(self@, d.name@) as usize;
        let mut r: Vec<usize> = Vec::new();
        let mut k: usize = 0;
        while k < deps.len()
            invariant
                self.wf(),
                package < self@.len(),
                deps@ == self@[package as int].dependencies@,
                row@ == self.targets@[package as int]@,
                k <= deps@.len(),
                admitted == (|d: Dependency| filter.admits(d)),
                to_index == (|d: Dependency| member_index(self@, d.name@) as usize),
                r@ == deps@.take(k as int).filter(admitted).map_values(to_index),
                forall|m: int|
                    0 <= m < r@.len() ==> has_edge(
                        self@,
                        package as int,
                        #[trigger] r@[m] as int,
                        filter,
                    ),
            decreases deps.len() - k,
        {
            proof {
                let before = deps@.take(k as int);
                assert(deps@.take(k + 1) =~= before.push(deps@[k as int]));
                before.lemma_filter_push(deps@[k as int], admitted);
                lemma_target_is_member_index(self@, self.targets@, package as int, k as int);
                assert(before.filter(admitted).push(deps@[k as int]).map_values(to_index)
                    =~= before.filter(admitted).map_values(to_index).push(
                    to_index(deps@[k as int]),
                ));
                assert(row@.len() == deps@.len());
            }
            if filter.test(&deps[k]) {
                proof {
                    lemma_target_gives_edge(self@, self.targets@, package as int, k as int, filter);
                }
                r.push(row[k]);
            }
            k += 1;
        }
        assert(deps@.take(k as int) =~= deps@);
        r
    }

    /// For every package, whether a chain of edges that `filter` admits leads
    /// from it to `target` through packages that are all marked in `allowed`,
    /// the two ends included.
    pub fn connected_to(&self, target: usize, filter: EdgeFilter, allowed: &Vec<bool>) -> (marks:
        Vec<bool>)
        requires
            self.wf(),
            target < self@.len(),
            allowed@.len() == self@.len(),
        ensures
            marks@.len() == self@.len(),
            forall|q: int|
                0 <= q < self@.len() ==> marks@[q] == connected(
                    self@,
                    q,
                    target as int,
                    filter,
                    allowed@,
                ),
    {
        let n = self.packages.len();
        let mut marks: Vec<bool> = vec![false; n];
        let mut k: usize = 0;
        while k < n
            invariant
                self.wf(),
                n == self@.len(),
                k <= n,
                target < n,
                allowed@.len() == n,
                marks@.len() == n,
                forall|q: int|
                    0 <= q < n && placed_before(self.order@, k as int, q) ==> marks@[q]
                        == connected(self@, q, target as int, filter, allowed@),
            decreases n - k,
        {
            proof {
                assert(is_least_ready(self@, self.order@, k as int));
            }
            let q = self.order[k];
            let hit = self.leads_towards(q, k, target, filter, allowed, &marks);
            let ghost before = marks@;
            marks.set(q, hit);
            proof {
                assert forall|p: int|
                    0 <= p < n && placed_before(self.order@, k as int + 1, p) implies marks@[p]
                    == connected(self@, p, target as int, filter, allowed@) by {
                    if p != q {
                        let m = choose|m: int|
                            0 <= m < k as int + 1 && m < self.order@.len() && self.order@[m] == p;
                        assert(m < k);
                        assert(placed_before(self.order@, k as int, p));
                        assert(marks@[p] == before[p]);
                    }
                }
            }
            k += 1;
        }
        proof {
            assert forall|q: int| 0 <= q < n implies marks@[q] == connected(
                self@,
                q,
                target as int,
                filter,
                allowed@,
            ) by {
                lemma_release_order_places_all(self@, self.order@, q);
            }
        }
        marks
    }

    /// Whether package `q`, which stands at position `k` of the release order,
    /// is connected to `target`, given the marks of the packages before it.
    fn leads_towards(
        &self,
        q: usize,
        k: usize,
        target: usize,
        filter: EdgeFilter,
        allowed: &Vec<bool>,
        marks: &Vec<bool>,
    ) -> (hit: bool)
        requires
            self.wf(),
            k < self@.len(),
            self.order@[k as int] == q,
            q < self@.len(),
            target < self@.len(),
            allowed@.len() == self@.len(),
            marks@.len() == self@.len(),
            forall|p: int|
                0 <= p < self@.len() && placed_before(self.order@, k as int, p) ==> marks@[p]
                    == connected(self@, p, target as int, filter, allowed@),
        ensures
            hit == connected(self@, q as int, target as int, filter, allowed@),
    {
        proof {
            lemma_connected_step(
                self@,
                self.targets@,
                self.order@,
                k as int,
                target as int,
                filter,
                allowed@,
                marks@,
            );
        }
        if !allowed[q] {
            return false;
        }
        let deps = &self.packages[q].dependencies;
        let row = &self.targets[q];
        let mut hit = false;
        let mut e: usize = 0;
        while e < deps.len()
            invariant
                self.wf(),
                q < self@.len(),
                target < self@.len(),
                allowed@.len() == self@.len(),
                marks@.len() == self@.len(),
                deps@ == self@[q as int].dependencies@,
                row@ == self.targets@[q as int]@,
                row@.len() == deps@.len(),
                e <= deps@.len(),
                hit == exists|e2: int|
                    0 <= e2 < e && #[trigger] leads_on(
                        self@,
                        self.targets@,
                        q as int,
                        e2,
                        target as int,
                        filter,
                        allowed@,
                        marks@,
                    ),
            decreases deps.len() - e,
        {
            proof {
                assert(is_target(self@, q as int, e as int, self.targets@[q as int]@[e as int] as int));
            }
            let t = row[e];
            if filter.test(&deps[e]) && ((t == target && allowed[target]) || marks[t]) {
                proof {
                    assert(leads_on(
                        self@,
                        self.targets@,
                        q as int,
                        e as int,
                        target as int,
                        filter,
                        allowed@,
                        marks@,
                    ));
                }
                hit = true;
            }
            e += 1;
        }
        hit
    }

    /// Whether `from` has an edge to `to` that `filter` admits.
    pub fn depends_directly(&self, from: usize, to: usize, filter: EdgeFilter) -> (r: bool)
        requires
            self.wf(),
            from < self@.len(),
            to < self@.len(),
        ensures
            r == has_edge(self@, from as int, to as int, filter),
    {
        let deps = &self.packages[from].dependencies;
        let row = &self.targets[from];
        let mut e: usize = 0;
        while e < deps.len()
            invariant
                self.wf(),
                from < self@.len(),
                to < self@.len(),
                deps@ == self@[from as int].dependencies@,
                row@ == self.targets@[from as int]@,
                row@.len() == deps@.len(),
                e <= deps@.len(),
                forall|e2: int|
                    0 <= e2 < e ==> !(#[trigger] row@[e2] == to && filter.admits(deps@[e2])),
            decreases deps.len() - e,
        {
            if row[e] == to && filter.test(&deps[e]) {
                proof {
                    lemma_target_gives_edge(self@, self.targets@, from as int, e as int, filter);
                }
                return true;
            }
            e += 1;
        }
        proof {
            if has_edge(self@, from as int, to as int, filter) {
                let e2 = lemma_edge_gives_target(
                    self@,
                    self.targets@,
                    from as int,
                    to as int,
                    filter,
                );
                assert(row@[e2] == to && filter.admits(deps@[e2]));
            }
        }
        false
    }

    /// The direct dependants of `package`: the packages with an edge to it
    /// that `filter` admits, in release order.
    pub fn direct_dependants_in_workspace(&self, package: usize, filter: EdgeFilter) -> (r: Vec<
        usize,
    >)
        requires
            self.wf(),
            package < self@.len(),
        ensures
            r@ == direct_dependants(self@, self.release_order(), package as int, filter),
            forall|q: usize|
                r@.contains(q) <==> q < self@.len() && has_edge(
                    self@,
                    q as int,
                    package as int,
                    filter,
                ),
    {
        let n = self.packages.len();
        let ghost wanted = depends_directly_on(self@, package as int, filter);
        let mut r: Vec<usize> = Vec::new();
        let mut k: usize = 0;
        while k < n
            invariant
                self.wf(),
                n == self@.len(),
                k <= n,
                package < n,
                wanted == depends_directly_on(self@, package as int, filter),
                r@ == self.order@.take(k as int).filter(wanted),
            decreases n - k,
        {
            proof {
                assert(is_least_ready(self@, self.order@, k as int));
                let before = self.order@.take(k as int);
                assert(self.order@.take(k + 1) =~= before.push(self.order@[k as int]));
                before.lemma_filter_push(self.order@[k as int], wanted);
            }
            let q = self.order[k];
            if self.depends_directly(q, package, filter) {
                r.push(q);
            }
            k += 1;
        }
        proof {
            assert(self.order@.take(k as int) =~= self.order@);
            let listed = self.order@.filter(wanted);
            assert forall|q: usize| listed.contains(q) <==> q < self@.len() && has_edge(
                self@,
                q as int,
                package as int,
                filter,
            ) by {
                if listed.contains(q) {
                    let i = choose|i: int| 0 <= i < listed.len() && listed[i] == q;
                    self.order@.lemma_filter_pred(wanted, i);
                }
                if q < self@.len() && has_edge(self@, q as int, package as int, filter) {
                    lemma_release_order_places_all(self@, self.order@, q as int);
                    let m = choose|m: int|
                        0 <= m < self.order@.len() && m < self.order@.len() && self.order@[m]
                            == q;
                    self.order@.lemma_filter_contains(wanted, m);
                }
            }
        }
        r
    }

    /// The dependants of `package`: every package that depends on it directly
    /// or through other packages, along edges that `filter` admits. They come
    /// in release order; `package` itself is never among them.
    pub fn dependants_in_workspace_filtered(&self, package: usize, filter: EdgeFilter) -> (r: Vec<
        usize,
    >)
        requires
            self.wf(),
            package < self@.len(),
        ensures
            r@ == dependants(self@, self.release_order(), package as int, filter),
            !r@.contains(package),
            forall|q: usize|
                r@.contains(q) <==> q < self@.len() && depends_transitively(
                    self@,
                    q as int,
                    package as int,
                    filter,
                ),
    {
        let n = self.packages.len();
        let allowed: Vec<bool> = vec![true; n];
        let marks = self.connected_to(package, filter, &allowed);
        let ghost wanted = depends_on(self@, package as int, filter);
        let mut r: Vec<usize> = Vec::new();
        let mut k: usize = 0;
        while k < n
            invariant
                self.wf(),
                n == self@.len(),
                k <= n,
                package < n,
                allowed@.len() == n,
                forall|i: int| 0 <= i < n ==> allowed@[i],
                marks@.len() == n,
                forall|q: int|
                    0 <= q < n ==> marks@[q] == connected(
                        self@,
                        q,
                        package as int,
                        filter,
                        allowed@,
                    ),
                wanted == depends_on(self@, package as int, filter),
                r@ == self.order@.take(k as int).filter(wanted),
            decreases n - k,
        {
            proof {
                assert(is_least_ready(self@, self.order@, k as int));
                let before = self.order@.take(k as int);
                assert(self.order@.take(k + 1) =~= before.push(self.order@[k as int]));
                before.lemma_filter_push(self.order@[k as int], wanted);
                lemma_connected_unrestricted(
                    self@,
                    self.order@[k as int] as int,
                    package as int,
                    filter,
                    allowed@,
                );
            }
            let q = self.order[k];
            if marks[q] {
                r.push(q);
            }
            k += 1;
        }
        proof {
            assert(self.order@.take(k as int) =~= self.order@);
            lemma_dependants_are_closure(self@, self.order@, package, filter);
        }
        r
    }

    /// The dependants of `package` along every edge of the workspace.
    pub fn dependants_in_workspace(&self, package: usize) -> (r: Vec<usize>)
        requires
            self.wf(),
            package < self@.len(),
        ensures
            r@ == dependants(self@, self.release_order(), package as int, all_edges()),
            !r@.contains(package),
            forall|q: usize|
                r@.contains(q) <==> q < self@.len() && depends_transitively(
                    self@,
                    q as int,
                    package as int,
                    all_edges(),
                ),
    {
        self.dependants_in_workspace_filtered(package, EdgeFilter::all())
    }
}

/// The dependants of a package are exactly the closure of the reversed
/// dependency relation: a package is listed if and only if a chain of one or
/// more admitted edges leads from it to `package`, no package is listed
/// twice, and `package` itself is not listed.
pub proof fn lemma_dependants_are_closure(
    pkgs: Seq<Package>,
    order: Seq<usize>,
    package: usize,
    filter: EdgeFilter,
)
    requires
        is_release_order(pkgs, order),
    ensures
        forall|q: usize|
            dependants(pkgs, order, package as int, filter).contains(q) <==> q < pkgs.len()
                && depends_transitively(pkgs, q as int, package as int, filter),
        !dependants(pkgs, order, package as int, filter).contains(package),
        dependants(pkgs, order, package as int, filter).no_duplicates(),
{
    let wanted = depends_on(pkgs, package as int, filter);
    let listed = order.filter(wanted);
    lemma_release_order_no_duplicates(pkgs, order);
    assert forall|q: usize| listed.contains(q) <==> q < pkgs.len() && depends_transitively(
        pkgs,
        q as int,
        package as int,
        filter,
    ) by {
        if listed.contains(q) {
            order.lemma_filter_contains_rev(wanted, q);
            let i = choose|i: int| 0 <= i < listed.len() && listed[i] == q;
            order.lemma_filter_pred(wanted, i);
            let m = choose|m: int| 0 <= m < order.len() && order[m] == q;
            assert(order[m] < pkgs.len());
        }
        if q < pkgs.len() && depends_transitively(pkgs, q as int, package as int, filter) {
            lemma_release_order_places_all(pkgs, order, q as int);
            let m = choose|m: int| 0 <= m < order.len() && m < order.len() && order[m] == q;
            order.lemma_filter_contains(wanted, m);
        }
    }
    lemma_no_self_dependency(pkgs, order, package as int, filter);
    assert(!listed.contains(package));
    crate::topology::lemma_filter_keeps_no_duplicates(order, wanted);
}

} // verus!
