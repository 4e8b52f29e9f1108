//! The proximity graph of the routers and the size of its giant component.

use crate::geometry::{in_range, lemma_distance_symmetric, positions, within_range, Point};
use std::collections::VecDeque;
use vstd::prelude::*;
use vstd::set_lib::{lemma_int_range, lemma_len_subset, set_int_range};

verus! {

/// Routers `i` and `j` of `routers` exist and are within `range` of each
/// other.
pub open spec fn linked(routers: Seq<Seq<i32>>, range: u32, i: int, j: int) -> bool {
    &&& 0 <= i < routers.len()
    &&& 0 <= j < routers.len()
    &&& within_range(routers[i], routers[j], range)
}

/// Step `k` of `route` goes from one router to a router linked with it.
pub open spec fn hop(routers: Seq<Seq<i32>>, range: u32, route: Seq<int>, k: int) -> bool {
    linked(routers, range, route[k], route[k + 1])
}

/// `route` is a non-empty walk through the proximity graph: it starts at a
/// router, and each router on it is linked with the next.
pub open spec fn is_route(routers: Seq<Seq<i32>>, range: u32, route: Seq<int>) -> bool {
    &&& route.len() > 0
    &&& 0 <= route[0] < routers.len()
    &&& forall|k: int| 0 <= k < route.len() - 1 ==> #[trigger] hop(routers, range, route, k)
}

/// Some route leads from router `i` to router `j`.
pub open spec fn connected(routers: Seq<Seq<i32>>, range: u32, i: int, j: int) -> bool {
    exists|route: Seq<int>| #[trigger]
        is_route(routers, range, route) && route[0] == i && route.last() == j
}

/// The routers connected with router `i`.
pub open spec fn component(routers: Seq<Seq<i32>>, range: u32, i: int) -> Set<int> {
    Set::new(|j: int| connected(routers, range, i, j))
}

/// The number of routers connected with router `i`, itself included.
pub open spec fn component_size(routers: Seq<Seq<i32>>, range: u32, i: int) -> nat {
    component(routers, range, i).len()
}

/// The size of the largest component among those of the first `n` routers.
pub open spec fn largest_component_upto(routers: Seq<Seq<i32>>, range: u32, n: nat) -> nat
    decreases n,
{
    if n == 0 {
        0
    } else {
        let rest = largest_component_upto(routers, range, (n - 1) as nat);
        let size = component_size(routers, range, n - 1);
        if size > rest {
            size
        } else {
            rest
        }
    }
}

/// The size of the giant component: the largest number of routers that are
/// connected with one another. It is 0 where there is no router.
pub open spec fn giant_component_size(routers: Seq<Seq<i32>>, range: u32) -> nat {
    largest_component_upto(routers, range, routers.len())
}

/// Being linked does not depend on the order of the two routers.
pub proof fn lemma_linked_symmetric(routers: Seq<Seq<i32>>, range: u32, i: int, j: int)
    ensures
        linked(routers, range, i, j) == linked(routers, range, j, i),
{
    if 0 <= i < routers.len() && 0 <= j < routers.len() {
        lemma_distance_symmetric(routers[i], routers[j]);
    }
}

/// Every router is connected with itself.
pub proof fn lemma_connected_reflexive(routers: Seq<Seq<i32>>, range: u32, i: int)
    requires
        0 <= i < routers.len(),
    ensures
        connected(routers, range, i, i),
{
    let route = seq![i];
    assert(is_route(routers, range, route));
    assert(route[0] == i && route.last() == i);
}

/// A route can be extended by one link.
pub proof fn lemma_connected_step(routers: Seq<Seq<i32>>, range: u32, i: int, j: int, k: int)
    requires
        connected(routers, range, i, j),
        linked(routers, range, j, k),
    ensures
        connected(routers, range, i, k),
{
    let route = choose|route: Seq<int>| #[trigger]
        is_route(routers, range, route) && route[0] == i && route.last() == j;
    let longer = route.push(k);
    assert forall|m: int| 0 <= m < longer.len() - 1 implies #[trigger] hop(
        routers,
        range,
        longer,
        m,
    ) by {
        if m < route.len() - 1 {
            assert(hop(routers, range, route, m));
        }
    }
    assert(is_route(routers, range, longer));
    assert(longer[0] == i && longer.last() == k);
}

proof fn lemma_route_reaches(
    routers: Seq<Seq<i32>>,
    range: u32,
    i: int,
    route: Seq<int>,
    m: int,
)
    requires
        is_route(routers, range, route),
        connected(routers, range, i, route[0]),
        0 <= m < route.len(),
    ensures
        connected(routers, range, i, route[m]),
    decreases m,
{
    if m > 0 {
        lemma_route_reaches(routers, range, i, route, m - 1);
        assert(hop(routers, range, route, m - 1));
        lemma_connected_step(routers, range, i, route[m - 1], route[m]);
    }
}

/// Routers connected through a third are connected.
pub proof fn lemma_connected_transitive(
    routers: Seq<Seq<i32>>,
    range: u32,
    i: int,
    j: int,
    k: int,
)
    requires
        connected(routers, range, i, j),
        connected(routers, range, j, k),
    ensures
        connected(routers, range, i, k),
{
    let route = choose|route: Seq<int>| #[trigger]
        is_route(routers, range, route) && route[0] == j && route.last() == k;
    lemma_route_reaches(routers, range, i, route, route.len() - 1);
}

proof fn lemma_route_returns(routers: Seq<Seq<i32>>, range: u32, route: Seq<int>, m: int)
    requires
        is_route(routers, range, route),
        0 <= m < route.len(),
    ensures
        connected(routers, range, route[m], route[0]),
        0 <= route[m] < routers.len(),
    decreases m,
{
    if m == 0 {
        lemma_connected_reflexive(routers, range, route[0]);
    } else {
        lemma_route_returns(routers, range, route, m - 1);
        assert(hop(routers, range, route, m - 1));
        lemma_linked_symmetric(routers, range, route[m - 1], route[m]);
        lemma_connected_reflexive(routers, range, route[m]);
        lemma_connected_step(routers, range, route[m], route[m], route[m - 1]);
        lemma_connected_transitive(routers, range, route[m], route[m - 1], route[0]);
    }
}

/// Being connected does not depend on the order of the two routers, and
/// only routers that exist are connected.
pub proof fn lemma_connected_symmetric(routers: Seq<Seq<i32>>, range: u32, i: int, j: int)
    requires
        connected(routers, range, i, j),
    ensures
        connected(routers, range, j, i),
        0 <= i < routers.len(),
        0 <= j < routers.len(),
{
    let route = choose|route: Seq<int>| #[trigger]
        is_route(routers, range, route) && route[0] == i && route.last() == j;
    lemma_route_returns(routers, range, route, route.len() - 1);
}

/// Connected routers have the same component.
pub proof fn lemma_component_shared(routers: Seq<Seq<i32>>, range: u32, i: int, j: int)
    requires
        connected(routers, range, i, j),
    ensures
        component(routers, range, i) == component(routers, range, j),
{
    lemma_connected_symmetric(routers, range, i, j);
    assert forall|k: int|
        connected(routers, range, i, k) == connected(routers, range, j, k) by {
        if connected(routers, range, i, k) {
            lemma_connected_transitive(routers, range, j, i, k);
        }
        if connected(routers, range, j, k) {
            lemma_connected_transitive(routers, range, i, j, k);
        }
    }
    assert(component(routers, range, i) =~= component(routers, range, j));
}

/// A component is finite and holds at most every router; that of a router
/// that exists holds at least that router.
pub proof fn lemma_component_bounds(routers: Seq<Seq<i32>>, range: u32, i: int)
    ensures
        component(routers, range, i).finite(),
        component_size(routers, range, i) <= routers.len(),
        0 <= i < routers.len() ==> component_size(routers, range, i) >= 1,
{
    let all = set_int_range(0, routers.len() as int);
    let part = component(routers, range, i);
    lemma_int_range(0, routers.len() as int);
    assert forall|j: int| part.contains(j) implies all.contains(j) by {
        lemma_connected_symmetric(routers, range, i, j);
    }
    lemma_len_subset(part, all);
    if 0 <= i < routers.len() {
        lemma_connected_reflexive(routers, range, i);
        assert(part.contains(i));
        if part.len() == 0 {
            vstd::set_lib::lemma_set_empty_equivalency_len(part);
            assert(false);
        }
    }
}

proof fn lemma_route_stays(
    routers: Seq<Seq<i32>>,
    range: u32,
    members: Set<int>,
    route: Seq<int>,
    m: int,
)
    requires
        is_route(routers, range, route),
        members.contains(route[0]),
        forall|v: int, w: int|
            members.contains(v) && #[trigger] linked(routers, range, v, w) ==> members.contains(
                w,
            ),
        0 <= m < route.len(),
    ensures
        members.contains(route[m]),
    decreases m,
{
    if m > 0 {
        lemma_route_stays(routers, range, members, route, m - 1);
        assert(hop(routers, range, route, m - 1));
    }
}

/// A set of routers that holds router `i`, and with each router those linked
/// with it, holds the whole component of `i`.
pub proof fn lemma_closed_set_holds_component(
    routers: Seq<Seq<i32>>,
    range: u32,
    members: Set<int>,
    i: int,
)
    requires
        members.contains(i),
        forall|v: int, w: int|
            members.contains(v) && #[trigger] linked(routers, range, v, w) ==> members.contains(
                w,
            ),
    ensures
        component(routers, range, i).subset_of(members),
{
    assert forall|j: int| component(routers, range, i).contains(j) implies members.contains(
        j,
    ) by {
        let route = choose|route: Seq<int>| #[trigger]
            is_route(routers, range, route) && route[0] == i && route.last() == j;
        lemma_route_stays(routers, range, members, route, route.len() - 1);
    }
}

/// No component among the first `n` is larger than `largest_component_upto`
/// says, and for `n > 0` one of them has that size.
pub proof fn lemma_largest_component_upto(routers: Seq<Seq<i32>>, range: u32, n: nat)
    ensures
        forall|i: int|
            0 <= i < n ==> #[trigger] component_size(routers, range, i) <= largest_component_upto(
                routers,
                range,
                n,
            ),
        n > 0 ==> exists|i: int|
            0 <= i < n && #[trigger] component_size(routers, range, i) == largest_component_upto(
                routers,
                range,
                n,
            ),
    decreases n,
{
    if n > 0 {
        lemma_largest_component_upto(routers, range, (n - 1) as nat);
        let rest = largest_component_upto(routers, range, (n - 1) as nat);
        let size = component_size(routers, range, n - 1);
        if size > rest || n == 1 {
            assert(component_size(routers, range, n - 1) == largest_component_upto(
                routers,
                range,
                n,
            ));
        } else {
            let i = choose|i: int|
                0 <= i < n - 1 && #[trigger] component_size(routers, range, i) == rest;
            assert(component_size(routers, range, i) == largest_component_upto(
                routers,
                range,
                n,
            ));
        }
    }
}

/// The giant component is a component of some router, and no router has a
/// larger one.
pub proof fn lemma_giant_component_is_largest(routers: Seq<Seq<i32>>, range: u32)
    ensures
        forall|i: int|
            0 <= i < routers.len() ==> #[trigger] component_size(routers, range, i)
                <= giant_component_size(routers, range),
        routers.len() > 0 ==> exists|i: int|
            0 <= i < routers.len() && #[trigger] component_size(routers, range, i)
                == giant_component_size(routers, range),
{
    lemma_largest_component_upto(routers, range, routers.len());
}

/// With at least one router, the giant component holds at least one router
/// and at most all of them.
pub proof fn lemma_giant_component_bounds(routers: Seq<Seq<i32>>, range: u32)
    requires
        routers.len() > 0,
    ensures
        1 <= giant_component_size(routers, range) <= routers.len(),
{
    lemma_giant_component_is_largest(routers, range);
    let i = choose|i: int|
        0 <= i < routers.len() && #[trigger] component_size(routers, range, i)
            == giant_component_size(routers, range);
    lemma_component_bounds(routers, range, i);
}

/// Where no two distinct routers are within range of each other, every
/// component is a single router, and the giant component has size 1.
pub proof fn lemma_isolated_routers(routers: Seq<Seq<i32>>, range: u32)
    requires
        routers.len() > 0,
        forall|i: int, j: int|
            0 <= i < routers.len() && 0 <= j < routers.len() && i != j ==> !within_range(
                #[trigger] routers[i],
                #[trigger] routers[j],
                range,
            ),
    ensures
        giant_component_size(routers, range) == 1,
{
    lemma_giant_component_is_largest(routers, range);
    let i = choose|i: int|
        0 <= i < routers.len() && #[trigger] component_size(routers, range, i)
            == giant_component_size(routers, range);
    let alone = set![i];
    assert forall|v: int, w: int|
        alone.contains(v) && #[trigger] linked(routers, range, v, w) implies alone.contains(
        w,
    ) by {
        if v != w {
            assert(!within_range(routers[v], routers[w], range));
        }
    }
    lemma_closed_set_holds_component(routers, range, alone, i);
    lemma_len_subset(component(routers, range, i), alone);
    lemma_component_bounds(routers, range, i);
}

/// A single router is its own giant component.
pub proof fn lemma_single_router(routers: Seq<Seq<i32>>, range: u32)
    requires
        routers.len() == 1,
    ensures
        giant_component_size(routers, range) == 1,
{
    lemma_giant_component_bounds(routers, range);
}

/// With each marked router, `marks` marks the routers linked with it.
spec fn closed_marks(routers: Seq<Seq<i32>>, range: u32, marks: Seq<bool>) -> bool {
    forall|v: int, w: int|
        0 <= v < routers.len() && marks[v] && #[trigger] linked(routers, range, v, w) ==> marks[w]
}

/// What a breadth-first search from `start` knows while it runs: `found`
/// holds the routers reached, all of them connected with `start` and newly
/// marked; those in `done` have had all their links followed; the others,
/// but for `current`, wait in `queue`.
spec fn search_invariant(
    routers: Seq<Seq<i32>>,
    range: u32,
    start: int,
    before: Seq<bool>,
    visited: Seq<bool>,
    found: Set<int>,
    done: Set<int>,
    queue: Seq<usize>,
    current: int,
) -> bool {
    &&& visited.len() == routers.len()
    &&& before.len() == routers.len()
    &&& found.finite()
    &&& found.contains(start)
    &&& forall|v: int| #[trigger]
        found.contains(v) ==> 0 <= v < routers.len() && !before[v] && connected(
            routers,
            range,
            start,
            v,
        )
    &&& forall|v: int|
        0 <= v < routers.len() ==> #[trigger] visited[v] == (before[v] || found.contains(v))
    &&& forall|k: int| 0 <= k < queue.len() ==> found.contains(#[trigger] queue[k] as int)
    &&& forall|v: int, w: int|
        done.contains(v) && #[trigger] linked(routers, range, v, w) ==> visited[w]
    &&& forall|v: int| #[trigger]
        found.contains(v) && !done.contains(v) && v != current ==> queue.contains(v as usize)
}

/// Marks every router connected with `start` and returns their number.
fn explore(routers: &Vec<Point>, range: u32, start: usize, visited: &mut Vec<bool>) -> (size:
    usize)
    requires
        start < routers.len(),
        old(visited)@.len() == routers.len(),
        !old(visited)@[start as int],
        closed_marks(positions(routers), range, old(visited)@),
    ensures
        final(visited)@.len() == routers.len(),
        size == component_size(positions(routers), range, start as int),
        forall|v: int|
            0 <= v < routers.len() ==> #[trigger] final(visited)@[v] == (old(visited)@[v]
                || connected(positions(routers), range, start as int, v)),
{
    let n = routers.len();
    let ghost ps = positions(routers);
    let ghost before = visited@;
    let ghost all = set_int_range(0, n as int);
    let mut queue: VecDeque<usize> = VecDeque::new();
    queue.push_back(start);
    visited.set(start, true);
    let mut size: usize = 1;
    let ghost mut found: Set<int> = set![start as int];
    let ghost mut done: Set<int> = Set::empty();
    proof {
        lemma_connected_reflexive(ps, range, start as int);
        lemma_int_range(0, n as int);
        assert(queue@[0] == start);
    }
    loop
        invariant
            n == routers.len(),
            ps == positions(routers),
            all == set_int_range(0, n as int),
            all.finite(),
            all.len() == n,
            start < n,
            1 <= size <= n,
            size == found.len(),
            search_invariant(ps, range, start as int, before, visited@, found, done, queue@, -1),
            closed_marks(ps, range, before),
        ensures
            queue@.len() == 0,
        decreases 2 * (n - size) + queue@.len(),
    {
        let ghost budget = 2 * (n - size) + queue@.len();
        let ghost waiting = queue@;
        let next = queue.pop_front();
        match next {
            None => {
                break ;
            },
            Some(current) => {
                proof {
                    assert(found.contains(waiting[0] as int));
                    assert forall|v: int| #[trigger]
                        found.contains(v) && !done.contains(v) && v
                            != current implies queue@.contains(v as usize) by {
                        let k = choose|k: int| 0 <= k < waiting.len() && waiting[k] == v as usize;
                        assert(queue@[k - 1] == v as usize);
                    }
                    assert forall|k: int| 0 <= k < queue@.len() implies found.contains(
                        #[trigger] queue@[k] as int,
                    ) by {
                        assert(queue@[k] == waiting[k + 1]);
                    }
                }
                let mut i: usize = 0;
                while i < n
                    invariant
                        n == routers.len(),
                        ps == positions(routers),
                        all == set_int_range(0, n as int),
                        all.finite(),
                        all.len() == n,
                        start < n,
                        current < n,
                        i <= n,
                        1 <= size <= n,
                        size == found.len(),
                        found.contains(current as int),
                        search_invariant(
                            ps,
                            range,
                            start as int,
                            before,
                            visited@,
                            found,
                            done,
                            queue@,
                            current as int,
                        ),
                        forall|w: int|
                            0 <= w < i && #[trigger] linked(ps, range, current as int, w)
                                ==> visited@[w],
                        2 * (n - size) + queue@.len() < budget,
                    decreases n - i,
                {
                    if !visited[i] {
                        if in_range(&routers[current], &routers[i], range) {
                            let ghost earlier = queue@;
                            proof {
                                assert(linked(ps, range, current as int, i as int));
                                lemma_connected_step(
                                    ps,
                                    range,
                                    start as int,
                                    current as int,
                                    i as int,
                                );
                                assert(!found.contains(i as int));
                                assert(found.insert(i as int).subset_of(all));
                                lemma_len_subset(found.insert(i as int), all);
                            }
                            visited.set(i, true);
                            queue.push_back(i);
                            size += 1;
                            proof {
                                found = found.insert(i as int);
                                assert forall|v: int| #[trigger]
                                    found.contains(v) && !done.contains(v) && v
                                        != current implies queue@.contains(v as usize) by {
                                    if v == i {
                                        assert(queue@[earlier.len() as int] == v as usize);
                                    } else {
                                        let k = choose|k: int|
                                            0 <= k < earlier.len() && earlier[k] == v as usize;
                                        assert(queue@[k] == v as usize);
                                    }
                                }
                            }
                        }
                    }
                    i += 1;
                }
                proof {
                    done = done.insert(current as int);
                }
            },
        }
    }
    proof {
        assert forall|v: int, w: int|
            found.contains(v) && #[trigger] linked(ps, range, v, w) implies found.contains(
            w,
        ) by {
            if !done.contains(v) {
                assert(queue@.contains(v as usize));
            }
            assert(visited@[w]);
            if before[w] {
                lemma_linked_symmetric(ps, range, v, w);
                assert(linked(ps, range, w, v));
            }
        }
        lemma_closed_set_holds_component(ps, range, found, start as int);
        assert(found =~= component(ps, range, start as int));
    }
    size
}

/// The size of the giant component of the proximity graph of `routers`: the
/// largest number of routers connected with one another through links of at
/// most `range` each.
pub fn sgc(routers: &Vec<Point>, range: u32) -> (largest: usize)
    ensures
        largest == giant_component_size(positions(routers), range),
{
    let n = routers.len();
    let ghost ps = positions(routers);
    let mut largest: usize = 0;
    let mut visited: Vec<bool> = vec![false; n];
    let mut start: usize = 0;
    while start < n
        invariant
            n == routers.len(),
            ps == positions(routers),
            visited@.len() == n,
            start <= n,
            largest == largest_component_upto(ps, range, start as nat),
            forall|v: int| 0 <= v < start ==> visited@[v],
            closed_marks(ps, range, visited@),
            forall|v: int|
                0 <= v < n && #[trigger] visited@[v] ==> component_size(ps, range, v) <= largest,
        decreases n - start,
    {
        if !visited[start] {
            let ghost before = visited@;
            let size = explore(routers, range, start, &mut visited);
            proof {
                lemma_connected_reflexive(ps, range, start as int);
                assert(visited@[start as int]);
                assert forall|v: int, w: int|
                    0 <= v < n && visited@[v] && #[trigger] linked(
                        ps,
                        range,
                        v,
                        w,
                    ) implies visited@[w] by {
                    if !before[v] {
                        lemma_connected_step(ps, range, start as int, v, w);
                    }
                }
                assert forall|v: int| 0 <= v < n && #[trigger] visited@[v] && !before[v] implies component_size(
                    ps,
                    range,
                    v,
                ) == size by {
                    lemma_component_shared(ps, range, start as int, v);
                }
            }
            if size > largest {
                largest = size;
            }
        }
        start += 1;
    }
    largest
}

} // verus!
