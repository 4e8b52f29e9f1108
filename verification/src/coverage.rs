//! The clients that the routers cover, in all and per router.

use crate::geometry::{in_range, positions, squared_distance, within_range, Point};
use crate::units::UNIT;
use vstd::prelude::*;
use vstd::set_lib::{lemma_int_range, lemma_len_subset, set_int_range};

verus! {

/// Some router is within `range` of `client`.
pub open spec fn covered(routers: Seq<Seq<i32>>, client: Seq<i32>, range: u32) -> bool {
    exists|r: int| 0 <= r < routers.len() && within_range(#[trigger] routers[r], client, range)
}

/// The clients among the first `n` that some router covers, by index.
pub open spec fn covered_upto(
    routers: Seq<Seq<i32>>,
    clients: Seq<Seq<i32>>,
    range: u32,
    n: int,
) -> Set<int> {
    Set::new(|c: int| 0 <= c < n && covered(routers, clients[c], range))
}

/// The clients that some router covers, by index.
pub open spec fn covered_clients(
    routers: Seq<Seq<i32>>,
    clients: Seq<Seq<i32>>,
    range: u32,
) -> Set<int> {
    covered_upto(routers, clients, range, clients.len() as int)
}

/// The number of clients within `range` of at least one router.
pub open spec fn covered_count(
    routers: Seq<Seq<i32>>,
    clients: Seq<Seq<i32>>,
    range: u32,
) -> nat {
    covered_clients(routers, clients, range).len()
}

/// The covered clients per router, as a fixed-point number rounded down.
/// It has no meaning where there is no router.
pub open spec fn coverage_per_router(
    routers: Seq<Seq<i32>>,
    clients: Seq<Seq<i32>>,
    range: u32,
) -> nat
    recommends
        routers.len() > 0,
{
    covered_count(routers, clients, range) * 1_000_000 / routers.len()
}

/// The covered clients among the first `n` are finitely many, at most `n`.
pub proof fn lemma_covered_upto_bounds(
    routers: Seq<Seq<i32>>,
    clients: Seq<Seq<i32>>,
    range: u32,
    n: int,
)
    requires
        0 <= n,
    ensures
        covered_upto(routers, clients, range, n).finite(),
        covered_upto(routers, clients, range, n).len() <= n,
{
    lemma_int_range(0, n);
    lemma_len_subset(covered_upto(routers, clients, range, n), set_int_range(0, n));
}

/// No more clients are covered than there are clients.
pub proof fn lemma_covered_count_bounds(
    routers: Seq<Seq<i32>>,
    clients: Seq<Seq<i32>>,
    range: u32,
)
    ensures
        covered_count(routers, clients, range) <= clients.len(),
{
    lemma_covered_upto_bounds(routers, clients, range, clients.len() as int);
}

/// Without clients nothing is covered: the count is 0, and so is the count
/// per router of any non-empty set of routers.
pub proof fn lemma_no_clients(routers: Seq<Seq<i32>>, clients: Seq<Seq<i32>>, range: u32)
    requires
        clients.len() == 0,
    ensures
        covered_count(routers, clients, range) == 0,
        routers.len() > 0 ==> coverage_per_router(routers, clients, range) == 0,
{
    lemma_covered_count_bounds(routers, clients, range);
}

/// Without routers nothing is covered.
pub proof fn lemma_no_routers(routers: Seq<Seq<i32>>, clients: Seq<Seq<i32>>, range: u32)
    requires
        routers.len() == 0,
    ensures
        covered_count(routers, clients, range) == 0,
{
    assert(covered_clients(routers, clients, range) =~= Set::empty());
}

/// Coverage is inclusive: a client at exactly `range` from a router is
/// covered.
pub proof fn lemma_boundary_is_covered(
    routers: Seq<Seq<i32>>,
    client: Seq<i32>,
    range: u32,
    r: int,
)
    requires
        0 <= r < routers.len(),
        squared_distance(routers[r], client) == range * range,
    ensures
        covered(routers, client, range),
{
    assert(within_range(routers[r], client, range));
}

/// Whether some router is within `range` of `client`. The search stops at
/// the first router that is.
pub fn is_covered(routers: &Vec<Point>, client: &Point, range: u32) -> (r: bool)
    ensures
        r == covered(positions(routers), client@, range),
{
    let ghost rs = positions(routers);
    let mut k: usize = 0;
    while k < routers.len()
        invariant
            k <= routers.len(),
            rs == positions(routers),
            forall|q: int| 0 <= q < k ==> !within_range(#[trigger] rs[q], client@, range),
        decreases routers.len() - k,
    {
        if in_range(&routers[k], client, range) {
            assert(within_range(rs[k as int], client@, range));
            return true;
        }
        k += 1;
    }
    false
}

/// The number of clients within `range` of at least one router.
pub fn ncmc(routers: &Vec<Point>, clients: &Vec<Point>, range: u32) -> (count: usize)
    ensures
        count == covered_count(positions(routers), positions(clients), range),
{
    let ghost rs = positions(routers);
    let ghost cs = positions(clients);
    let mut count: usize = 0;
    let mut c: usize = 0;
    assert(covered_upto(rs, cs, range, 0) =~= Set::empty());
    while c < clients.len()
        invariant
            c <= clients.len(),
            rs == positions(routers),
            cs == positions(clients),
            count == covered_upto(rs, cs, range, c as int).len(),
            count <= c,
        decreases clients.len() - c,
    {
        let ghost earlier = covered_upto(rs, cs, range, c as int);
        let ghost later = covered_upto(rs, cs, range, c + 1);
        proof {
            lemma_covered_upto_bounds(rs, cs, range, c as int);
        }
        if is_covered(routers, &clients[c], range) {
            assert(later =~= earlier.insert(c as int));
            count += 1;
        } else {
            assert(later =~= earlier);
        }
        c += 1;
    }
    count
}

/// The covered clients per router, as a fixed-point number rounded down, or
/// `None` where there is no router to divide by.
pub fn ncmcpr(routers: &Vec<Point>, clients: &Vec<Point>, range: u32) -> (ratio: Option<u128>)
    ensures
        routers.len() == 0 ==> ratio.is_none(),
        routers.len() > 0 ==> (ratio matches Some(q) && q == coverage_per_router(
            positions(routers),
            positions(clients),
            range,
        )),
{
    if routers.len() == 0 {
        return None;
    }
    let count = ncmc(routers, clients, range);
    Some(per_router(count, routers.len()))
}

/// `count / routers` as a fixed-point number, rounded down.
pub fn per_router(count: usize, routers: usize) -> (ratio: u128)
    requires
        routers > 0,
    ensures
        ratio == count * 1_000_000 / (routers as int),
        ratio <= count * 1_000_000,
{
    assert(count * UNIT == count * 1_000_000);
    let scaled: u128 = (count as u128) * (UNIT as u128);
    proof {
        vstd::arithmetic::div_mod::lemma_div_is_ordered_by_denominator(
            scaled as int,
            1,
            routers as int,
        );
    }
    scaled / (routers as u128)
}

} // verus!
