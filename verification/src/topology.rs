//! The dependency relation of a workspace as mathematics: edges, chains of
//! edges, cycles, and the order in which packages are released.

use crate::package::{all_edges, EdgeFilter, Package};
use vstd::prelude::*;
use vstd::set_lib::{lemma_int_range, lemma_len_subset, set_int_range};

verus! {

/// No two packages share a name.
pub open spec fn names_unique(pkgs: Seq<Package>) -> bool {
    forall|i: int, j: int| 0 <= i < j < pkgs.len() ==> pkgs[i].name@ != pkgs[j].name@
}

/// Some package of the workspace is called `name`.
pub open spec fn is_member(pkgs: Seq<Package>, name: Seq<char>) -> bool {
    exists|i: int| 0 <= i < pkgs.len() && (#[trigger] pkgs[i]).name@ == name
}

/// Every dependency edge names a package of the workspace.
pub open spec fn dependencies_known(pkgs: Seq<Package>) -> bool {
    forall|i: int, k: int|
        0 <= i < pkgs.len() && 0 <= k < pkgs[i].dependencies@.len() ==> is_member(
            pkgs,
            (#[trigger] pkgs[i].dependencies@[k]).name@,
        )
}

/// The `k`-th dependency of package `from` names package `to`, and `filter`
/// admits it.
pub open spec fn is_edge_at(pkgs: Seq<Package>, from: int, to: int, filter: EdgeFilter, k: int) -> bool {
    &&& 0 <= k < pkgs[from].dependencies@.len()
    &&& pkgs[from].dependencies@[k].name@ == pkgs[to].name@
    &&& filter.admits(pkgs[from].dependencies@[k])
}

/// Package `from` depends directly on package `to` through an edge that
/// `filter` admits.
pub open spec fn has_edge(pkgs: Seq<Package>, from: int, to: int, filter: EdgeFilter) -> bool {
    &&& 0 <= from < pkgs.len()
    &&& 0 <= to < pkgs.len()
    &&& exists|k: int| is_edge_at(pkgs, from, to, filter, k)
}

/// `chain` lists two or more packages, each depending directly on the next
/// through an edge that `filter` admits.
pub open spec fn is_chain(pkgs: Seq<Package>, chain: Seq<int>, filter: EdgeFilter) -> bool {
    &&& chain.len() >= 2
    &&& forall|s: int|
        0 <= s < chain.len() - 1 ==> has_edge(pkgs, #[trigger] chain[s], chain[s + 1], filter)
}

/// Every package on `chain` is marked in `allowed`.
pub open spec fn chain_within(chain: Seq<int>, allowed: Seq<bool>) -> bool {
    forall|s: int|
        0 <= s < chain.len() ==> 0 <= #[trigger] chain[s] < allowed.len() && allowed[chain[s]]
}

/// A chain of admitted edges leads from `from` to `to`, and every package on
/// it, both ends included, is marked in `allowed`.
pub open spec fn connected(
    pkgs: Seq<Package>,
    from: int,
    to: int,
    filter: EdgeFilter,
    allowed: Seq<bool>,
) -> bool {
    exists|chain: Seq<int>|
        #[trigger] is_chain(pkgs, chain, filter) && chain_within(chain, allowed) && chain.first()
            == from && chain.last() == to
}

/// Package `from` depends on package `to`, directly or through any number of
/// packages in between, along edges that `filter` admits.
pub open spec fn depends_transitively(pkgs: Seq<Package>, from: int, to: int, filter: EdgeFilter) -> bool {
    exists|chain: Seq<int>|
        #[trigger] is_chain(pkgs, chain, filter) && chain.first() == from && chain.last() == to
}

/// Some package depends on itself, directly or indirectly.
pub open spec fn has_cycle(pkgs: Seq<Package>) -> bool {
    exists|i: int| #[trigger] depends_transitively(pkgs, i, i, all_edges())
}

/// Package `i` stands among the first `upto` entries of `order`.
pub open spec fn placed_before(order: Seq<usize>, upto: int, i: int) -> bool {
    exists|m: int| 0 <= m < upto && m < order.len() && #[trigger] order[m] == i
}

/// Package `i` is not among the first `upto` entries of `order`, and each of
/// its dependencies is.
pub open spec fn is_ready(pkgs: Seq<Package>, order: Seq<usize>, upto: int, i: int) -> bool {
    &&& 0 <= i < pkgs.len()
    &&& !placed_before(order, upto, i)
    &&& forall|j: int| #[trigger] has_edge(pkgs, i, j, all_edges()) ==> placed_before(order, upto, j)
}

/// The entry of `order` at position `k` is, among the packages that are ready
/// once the entries before it are placed, the one declared first.
pub open spec fn is_least_ready(pkgs: Seq<Package>, order: Seq<usize>, k: int) -> bool {
    &&& is_ready(pkgs, order, k, order[k] as int)
    &&& forall|i: int| 0 <= i < order[k] ==> !#[trigger] is_ready(pkgs, order, k, i)
}

/// `order` is the release order of the workspace: it places every package
/// after its dependencies, and among the packages that may come next always
/// takes the one declared first.
pub open spec fn is_release_order(pkgs: Seq<Package>, order: Seq<usize>) -> bool {
    &&& order.len() == pkgs.len()
    &&& forall|k: int| 0 <= k < order.len() ==> #[trigger] is_least_ready(pkgs, order, k)
}

/// What a filter keeps of a sequence without repetitions is without
/// repetitions.
pub proof fn lemma_filter_keeps_no_duplicates<A>(s: Seq<A>, pred: spec_fn(A) -> bool)
    requires
        s.no_duplicates(),
    ensures
        s.filter(pred).no_duplicates(),
    decreases s.len(),
{
    reveal(Seq::filter);
    if s.len() > 0 {
        let front = s.drop_last();
        lemma_filter_keeps_no_duplicates(front, pred);
        let kept = front.filter(pred);
        if pred(s.last()) {
            if kept.contains(s.last()) {
                front.lemma_filter_contains_rev(pred, s.last());
                let i = choose|i: int| 0 <= i < front.len() && front[i] == s.last();
                assert(s[i] == s[s.len() - 1]);
            }
            let longer = kept.push(s.last());
            assert forall|a: int, b: int|
                0 <= a < longer.len() && 0 <= b < longer.len() && a != b implies longer[a]
                != longer[b] by {
                if a < kept.len() && b < kept.len() {
                    assert(kept[a] != kept[b]);
                } else if a < kept.len() {
                    assert(kept.contains(kept[a]));
                } else {
                    assert(kept.contains(kept[b]));
                }
            }
        }
    }
}

/// A sequence longer than `bound` whose entries all lie in `0..bound` holds
/// some entry twice.
pub proof fn lemma_pigeonhole(s: Seq<int>, bound: int) -> (r: (int, int))
    requires
        0 <= bound < s.len(),
        forall|i: int| 0 <= i < s.len() ==> 0 <= #[trigger] s[i] < bound,
    ensures
        0 <= r.0 < r.1 < s.len(),
        s[r.0] == s[r.1],
{
    if s.no_duplicates() {
        s.unique_seq_to_set();
        lemma_int_range(0, bound);
        assert(s.to_set().subset_of(set_int_range(0, bound))) by {
            assert forall|x: int| s.to_set().contains(x) implies set_int_range(0, bound).contains(
                x,
            ) by {
                let i = choose|i: int| 0 <= i < s.len() && s[i] == x;
                assert(0 <= s[i] < bound);
            }
        }
        lemma_len_subset(s.to_set(), set_int_range(0, bound));
        assert(false);
    }
    let (i, j) = choose|i: int, j: int|
        0 <= i < s.len() && 0 <= j < s.len() && i != j && s[i] == s[j];
    if i < j {
        (i, j)
    } else {
        (j, i)
    }
}

/// Appending an entry to an order changes nothing about what stands before a
/// position inside it.
pub proof fn lemma_placed_before_push(order: Seq<usize>, x: usize, upto: int, i: int)
    requires
        0 <= upto <= order.len(),
    ensures
        placed_before(order.push(x), upto, i) == placed_before(order, upto, i),
        placed_before(order.push(x), order.len() as int + 1, i) == (placed_before(
            order,
            order.len() as int,
            i,
        ) || i == x),
{
    let longer = order.push(x);
    if placed_before(order, upto, i) {
        let m = choose|m: int| 0 <= m < upto && m < order.len() && order[m] == i;
        assert(longer[m] == i);
    }
    if placed_before(longer, upto, i) {
        let m = choose|m: int| 0 <= m < upto && m < longer.len() && longer[m] == i;
        assert(order[m] == i);
    }
    if placed_before(order, order.len() as int, i) {
        let m = choose|m: int| 0 <= m < order.len() && m < order.len() && order[m] == i;
        assert(longer[m] == i);
    }
    if i == x {
        assert(longer[order.len() as int] == i);
    }
    if placed_before(longer, order.len() as int + 1, i) {
        let m = choose|m: int| 0 <= m < order.len() + 1 && m < longer.len() && longer[m] == i;
        if m < order.len() {
            assert(order[m] == i);
        }
    }
}

/// Two orders that agree on their first `k` entries agree on which packages
/// are ready at position `k`.
pub proof fn lemma_ready_agrees(pkgs: Seq<Package>, a: Seq<usize>, b: Seq<usize>, k: int, i: int)
    requires
        0 <= k <= a.len(),
        k <= b.len(),
        forall|m: int| 0 <= m < k ==> a[m] == b[m],
    ensures
        is_ready(pkgs, a, k, i) == is_ready(pkgs, b, k, i),
{
    assert forall|j: int| placed_before(a, k, j) == placed_before(b, k, j) by {
        if placed_before(a, k, j) {
            let m = choose|m: int| 0 <= m < k && m < a.len() && a[m] == j;
            assert(b[m] == j);
        }
        if placed_before(b, k, j) {
            let m = choose|m: int| 0 <= m < k && m < b.len() && b[m] == j;
            assert(a[m] == j);
        }
    }
}

/// Two orders that agree up to and including position `k` agree on whether
/// the entry there is the least ready one.
pub proof fn lemma_least_ready_agrees(pkgs: Seq<Package>, a: Seq<usize>, b: Seq<usize>, k: int)
    requires
        0 <= k < a.len(),
        k < b.len(),
        forall|m: int| 0 <= m <= k ==> a[m] == b[m],
        is_least_ready(pkgs, a, k),
    ensures
        is_least_ready(pkgs, b, k),
{
    assert(a[k] == b[k]);
    assert forall|i: int| is_ready(pkgs, a, k, i) == is_ready(pkgs, b, k, i) by {
        lemma_ready_agrees(pkgs, a, b, k, i);
    }
}

/// A release order places every package of the workspace.
pub proof fn lemma_release_order_places_all(pkgs: Seq<Package>, order: Seq<usize>, i: int)
    requires
        is_release_order(pkgs, order),
        0 <= i < pkgs.len(),
    ensures
        placed_before(order, order.len() as int, i),
{
    let n = order.len() as int;
    if !placed_before(order, n, i) {
        assert forall|k: int| 0 <= k < n implies order[k] != i && order[k] < n by {
            assert(is_least_ready(pkgs, order, k));
        }
        let squeezed = Seq::new(
            order.len(),
            |k: int|
                if order[k] > i {
                    order[k] - 1
                } else {
                    order[k] as int
                },
        );
        let (a, b) = lemma_pigeonhole(squeezed, n - 1);
        assert(order[a] == order[b]);
        assert(is_least_ready(pkgs, order, b));
        assert(placed_before(order, b, order[b] as int));
    }
}

/// A release order holds no package twice.
pub proof fn lemma_release_order_no_duplicates(pkgs: Seq<Package>, order: Seq<usize>)
    requires
        is_release_order(pkgs, order),
    ensures
        order.no_duplicates(),
        forall|k: int| 0 <= k < order.len() ==> #[trigger] order[k] < pkgs.len(),
{
    assert forall|a: int, b: int| 0 <= a < order.len() && 0 <= b < order.len() && a != b implies order[a]
        != order[b] by {
        if order[a] == order[b] {
            if a < b {
                assert(is_least_ready(pkgs, order, b));
                assert(placed_before(order, b, order[b] as int));
            } else {
                assert(is_least_ready(pkgs, order, a));
                assert(placed_before(order, a, order[a] as int));
            }
        }
    }
    assert forall|k: int| 0 <= k < order.len() implies #[trigger] order[k] < pkgs.len() by {
        assert(is_least_ready(pkgs, order, k));
    }
}

/// In a release order no package comes before any of its dependencies: each
/// package that the entry at position `k` depends on, through whatever edge,
/// stands at an earlier position.
pub proof fn lemma_release_order_respects_dependencies(
    pkgs: Seq<Package>,
    order: Seq<usize>,
    k: int,
    dependency: int,
    filter: EdgeFilter,
)
    requires
        is_release_order(pkgs, order),
        0 <= k < order.len(),
        has_edge(pkgs, order[k] as int, dependency, filter),
    ensures
        placed_before(order, k, dependency),
{
    assert(is_least_ready(pkgs, order, k));
    lemma_edge_widens(pkgs, order[k] as int, dependency, filter);
}

/// An edge that some filter admits is an edge of the unfiltered graph.
pub proof fn lemma_edge_widens(pkgs: Seq<Package>, from: int, to: int, filter: EdgeFilter)
    requires
        has_edge(pkgs, from, to, filter),
    ensures
        has_edge(pkgs, from, to, all_edges()),
{
    let k = choose|k: int| is_edge_at(pkgs, from, to, filter, k);
    assert(is_edge_at(pkgs, from, to, all_edges(), k));
}

/// A chain under some filter is a chain of the unfiltered graph.
pub proof fn lemma_chain_widens(pkgs: Seq<Package>, chain: Seq<int>, filter: EdgeFilter)
    requires
        is_chain(pkgs, chain, filter),
    ensures
        is_chain(pkgs, chain, all_edges()),
{
    assert forall|s: int| 0 <= s < chain.len() - 1 implies has_edge(
        pkgs,
        #[trigger] chain[s],
        chain[s + 1],
        all_edges(),
    ) by {
        lemma_edge_widens(pkgs, chain[s], chain[s + 1], filter);
    }
}

/// What is left of a chain of three or more packages after its first package
/// is again a chain.
pub proof fn lemma_chain_tail(pkgs: Seq<Package>, chain: Seq<int>, filter: EdgeFilter)
    requires
        is_chain(pkgs, chain, filter),
        chain.len() >= 3,
    ensures
        is_chain(pkgs, chain.subrange(1, chain.len() as int), filter),
        chain.subrange(1, chain.len() as int).first() == chain[1],
        chain.subrange(1, chain.len() as int).last() == chain.last(),
{
    let tail = chain.subrange(1, chain.len() as int);
    assert forall|s: int| 0 <= s < tail.len() - 1 implies has_edge(
        pkgs,
        #[trigger] tail[s],
        tail[s + 1],
        filter,
    ) by {
        assert(tail[s] == chain[s + 1]);
        assert(tail[s + 1] == chain[s + 1 + 1]);
        assert(has_edge(pkgs, chain[s + 1], chain[s + 1 + 1], filter));
    }
}

/// An edge in front of a chain makes a longer chain.
pub proof fn lemma_chain_prepend(
    pkgs: Seq<Package>,
    from: int,
    chain: Seq<int>,
    filter: EdgeFilter,
)
    requires
        is_chain(pkgs, chain, filter),
        has_edge(pkgs, from, chain.first(), filter),
    ensures
        is_chain(pkgs, seq![from] + chain, filter),
        (seq![from] + chain).first() == from,
        (seq![from] + chain).last() == chain.last(),
{
    let longer = seq![from] + chain;
    assert forall|s: int| 0 <= s < longer.len() - 1 implies has_edge(
        pkgs,
        #[trigger] longer[s],
        longer[s + 1],
        filter,
    ) by {
        if s == 0 {
            assert(longer[0] == from);
            assert(longer[1] == chain[0]);
        } else {
            assert(longer[s] == chain[s - 1]);
            assert(longer[s + 1] == chain[s - 1 + 1]);
            assert(has_edge(pkgs, chain[s - 1], chain[s - 1 + 1], filter));
        }
    }
}

/// An edge behind a chain makes a longer chain.
pub proof fn lemma_chain_append(pkgs: Seq<Package>, chain: Seq<int>, to: int, filter: EdgeFilter)
    requires
        is_chain(pkgs, chain, filter),
        has_edge(pkgs, chain.last(), to, filter),
    ensures
        is_chain(pkgs, chain.push(to), filter),
        chain.push(to).first() == chain.first(),
        chain.push(to).last() == to,
{
    let longer = chain.push(to);
    assert forall|s: int| 0 <= s < longer.len() - 1 implies has_edge(
        pkgs,
        #[trigger] longer[s],
        longer[s + 1],
        filter,
    ) by {
        if s < chain.len() - 1 {
            assert(longer[s] == chain[s]);
            assert(longer[s + 1] == chain[s + 1]);
            assert(has_edge(pkgs, chain[s], chain[s + 1], filter));
        } else {
            assert(longer[s] == chain.last());
        }
    }
}

/// Along a chain the release order runs backwards: the last package of a
/// chain stands before the position of its first.
pub proof fn lemma_chain_descends(pkgs: Seq<Package>, order: Seq<usize>, chain: Seq<int>, k: int)
    requires
        is_release_order(pkgs, order),
        is_chain(pkgs, chain, all_edges()),
        0 <= k < order.len(),
        order[k] == chain.first(),
    ensures
        placed_before(order, k, chain.last()),
    decreases chain.len(),
{
    assert(has_edge(pkgs, chain[0], chain[0int + 1], all_edges()));
    lemma_release_order_respects_dependencies(pkgs, order, k, chain[1], all_edges());
    if chain.len() > 2 {
        let m = choose|m: int| 0 <= m < k && m < order.len() && order[m] == chain[1];
        lemma_chain_tail(pkgs, chain, all_edges());
        let tail = chain.subrange(1, chain.len() as int);
        lemma_chain_descends(pkgs, order, tail, m);
        let p = choose|p: int| 0 <= p < m && p < order.len() && order[p] == tail.last();
        assert(order[p] == chain.last());
    }
}

/// A workspace that has a release order has no cycle.
pub proof fn lemma_release_order_acyclic(pkgs: Seq<Package>, order: Seq<usize>)
    requires
        is_release_order(pkgs, order),
    ensures
        !has_cycle(pkgs),
{
    if has_cycle(pkgs) {
        let i = choose|i: int| #[trigger] depends_transitively(pkgs, i, i, all_edges());
        let chain = choose|chain: Seq<int>|
            #[trigger] is_chain(pkgs, chain, all_edges()) && chain.first() == i && chain.last()
                == i;
        assert(has_edge(pkgs, chain[0], chain[0int + 1], all_edges()));
        lemma_release_order_places_all(pkgs, order, i);
        let k = choose|k: int| 0 <= k < order.len() && k < order.len() && order[k] == i;
        lemma_chain_descends(pkgs, order, chain, k);
        lemma_release_order_no_duplicates(pkgs, order);
        let m = choose|m: int| 0 <= m < k && m < order.len() && order[m] == i;
        assert(order[m] == order[k]);
    }
}

/// In a workspace that has a release order, no package depends on itself,
/// whatever the filter.
pub proof fn lemma_no_self_dependency(
    pkgs: Seq<Package>,
    order: Seq<usize>,
    i: int,
    filter: EdgeFilter,
)
    requires
        is_release_order(pkgs, order),
    ensures
        !depends_transitively(pkgs, i, i, filter),
{
    if depends_transitively(pkgs, i, i, filter) {
        let chain = choose|chain: Seq<int>|
            #[trigger] is_chain(pkgs, chain, filter) && chain.first() == i && chain.last() == i;
        lemma_chain_widens(pkgs, chain, filter);
        assert(depends_transitively(pkgs, i, i, all_edges()));
        lemma_release_order_acyclic(pkgs, order);
    }
}

/// The release order of a workspace is unique: two orders that both satisfy
/// its definition are the same sequence.
pub proof fn lemma_release_order_unique(pkgs: Seq<Package>, a: Seq<usize>, b: Seq<usize>)
    requires
        is_release_order(pkgs, a),
        is_release_order(pkgs, b),
    ensures
        a == b,
{
    lemma_orders_agree_upto(pkgs, a, b, a.len() as int);
    assert(a =~= b);
}

proof fn lemma_orders_agree_upto(pkgs: Seq<Package>, a: Seq<usize>, b: Seq<usize>, k: int)
    requires
        is_release_order(pkgs, a),
        is_release_order(pkgs, b),
        0 <= k <= a.len(),
    ensures
        forall|m: int| 0 <= m < k ==> a[m] == b[m],
    decreases k,
{
    if k > 0 {
        lemma_orders_agree_upto(pkgs, a, b, k - 1);
        let p = k - 1;
        assert(is_least_ready(pkgs, a, p));
        assert(is_least_ready(pkgs, b, p));
        lemma_ready_agrees(pkgs, a, b, p, a[p] as int);
        lemma_ready_agrees(pkgs, a, b, p, b[p] as int);
        if a[p] < b[p] {
            assert(is_ready(pkgs, b, p, a[p] as int));
        }
        if b[p] < a[p] {
            assert(is_ready(pkgs, a, p, b[p] as int));
        }
    }
}

/// Where fewer packages are placed than the workspace has and none of the
/// others is ready, the workspace has a cycle.
pub proof fn lemma_stuck_has_cycle(pkgs: Seq<Package>, order: Seq<usize>)
    requires
        order.len() < pkgs.len(),
        forall|m: int| 0 <= m < order.len() ==> #[trigger] order[m] < pkgs.len(),
        forall|i: int| 0 <= i < pkgs.len() ==> !#[trigger] is_ready(pkgs, order, order.len() as int, i),
    ensures
        has_cycle(pkgs),
{
    let n = pkgs.len() as int;
    let start = lemma_some_unplaced(order, n);
    let walk = lemma_unplaced_walk(pkgs, order, start, pkgs.len());
    let (a, b) = lemma_pigeonhole(walk, n);
    let chain = walk.subrange(a, b + 1);
    assert forall|s: int| 0 <= s < chain.len() - 1 implies has_edge(
        pkgs,
        #[trigger] chain[s],
        chain[s + 1],
        all_edges(),
    ) by {
        assert(chain[s] == walk[a + s]);
        assert(chain[s + 1] == walk[a + s + 1]);
        assert(has_edge(pkgs, walk[a + s], walk[a + s + 1], all_edges()));
    }
    assert(is_chain(pkgs, chain, all_edges()));
    assert(chain.first() == walk[a]);
    assert(chain.last() == walk[b]);
    assert(depends_transitively(pkgs, walk[a], walk[a], all_edges()));
}

proof fn lemma_some_unplaced(order: Seq<usize>, n: int) -> (u: int)
    requires
        order.len() < n,
    ensures
        0 <= u < n,
        !placed_before(order, order.len() as int, u),
{
    let c = order.len() as int;
    if forall|i: int| 0 <= i < n ==> #[trigger] placed_before(order, c, i) {
        let position = Seq::new(
            n as nat,
            |i: int| choose|m: int| 0 <= m < c && m < order.len() && #[trigger] order[m] == i,
        );
        assert forall|i: int| 0 <= i < position.len() implies 0 <= #[trigger] position[i] < c
            && order[position[i]] == i by {
            assert(placed_before(order, c, i));
        }
        let (a, b) = lemma_pigeonhole(position, c);
        assert(order[position[a]] == a);
        assert(order[position[b]] == b);
        assert(false);
    }
    choose|i: int| 0 <= i < n && !#[trigger] placed_before(order, c, i)
}

proof fn lemma_unplaced_walk(pkgs: Seq<Package>, order: Seq<usize>, start: int, steps: nat) -> (walk: Seq<int>)
    requires
        forall|i: int| 0 <= i < pkgs.len() ==> !#[trigger] is_ready(pkgs, order, order.len() as int, i),
        0 <= start < pkgs.len(),
        !placed_before(order, order.len() as int, start),
    ensures
        walk.len() == steps + 1,
        walk[0] == start,
        forall|s: int|
            0 <= s < walk.len() ==> 0 <= #[trigger] walk[s] < pkgs.len() && !placed_before(
                order,
                order.len() as int,
                walk[s],
            ),
        forall|s: int| 0 <= s < steps ==> has_edge(pkgs, #[trigger] walk[s], walk[s + 1], all_edges()),
    decreases steps,
{
    if steps == 0 {
        seq![start]
    } else {
        let shorter = lemma_unplaced_walk(pkgs, order, start, (steps - 1) as nat);
        let end = shorter.last();
        assert(end == shorter[steps - 1]);
        assert(!is_ready(pkgs, order, order.len() as int, end));
        let next = choose|j: int|
            #[trigger] has_edge(pkgs, end, j, all_edges()) && !placed_before(
                order,
                order.len() as int,
                j,
            );
        let walk = shorter.push(next);
        assert forall|s: int| 0 <= s < steps implies has_edge(
            pkgs,
            #[trigger] walk[s],
            walk[s + 1],
            all_edges(),
        ) by {
            if s < steps - 1 {
                assert(walk[s] == shorter[s]);
                assert(walk[s + 1] == shorter[s + 1]);
            }
        }
        walk
    }
}

} // verus!
