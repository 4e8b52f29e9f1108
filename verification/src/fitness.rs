//! The fitness of a placement: a weighted sum of its three metrics.

use crate::connectivity::{giant_component_size, lemma_giant_component_bounds, sgc};
use crate::coverage::{
    coverage_per_router, covered_count, lemma_covered_count_bounds, ncmc, per_router,
};
use crate::geometry::{positions, Point};
use crate::units::UNIT;
use vstd::prelude::*;

verus! {

/// The weight of each of the three metrics in the fitness score, as
/// fixed-point numbers.
#[derive(Clone, Copy, Debug, PartialEq, Eq)]
pub struct Weights {
    /// Weight of the size of the giant component.
    pub sgc: u32,
    /// Weight of the number of covered clients.
    pub ncmc: u32,
    /// Weight of the number of covered clients per router.
    pub ncmcpr: u32,
}

/// The three metrics of a placement.
#[derive(Clone, Copy, Debug, PartialEq, Eq)]
pub struct Metrics {
    /// Size of the giant component, in routers.
    pub sgc: usize,
    /// Number of covered clients.
    pub ncmc: usize,
    /// Covered clients per router, as a fixed-point number rounded down.
    pub ncmcpr: u128,
}

/// `metrics` are the metrics of the placement `routers` for `clients`.
pub open spec fn is_metrics_of(
    metrics: Metrics,
    routers: Seq<Seq<i32>>,
    clients: Seq<Seq<i32>>,
    range: u32,
) -> bool {
    &&& metrics.sgc == giant_component_size(routers, range)
    &&& metrics.ncmc == covered_count(routers, clients, range)
    &&& metrics.ncmcpr == coverage_per_router(routers, clients, range)
}

/// The weighted sum of the three metrics. The weights and the third metric
/// are fixed-point numbers and the first two metrics are counts, so the sum
/// counts millionths of a millionth: a score of 1 is `UNIT * UNIT`.
pub open spec fn weighted_sum(weights: Weights, sgc: nat, ncmc: nat, ncmcpr: nat) -> nat {
    weights.sgc as nat * sgc * 1_000_000 + weights.ncmc as nat * ncmc * 1_000_000
        + weights.ncmcpr as nat * ncmcpr
}

/// The fitness of the placement `routers` for `clients`. It has no meaning
/// where there is no router.
pub open spec fn fitness(
    routers: Seq<Seq<i32>>,
    clients: Seq<Seq<i32>>,
    range: u32,
    weights: Weights,
) -> nat
    recommends
        routers.len() > 0,
{
    weighted_sum(
        weights,
        giant_component_size(routers, range),
        covered_count(routers, clients, range),
        coverage_per_router(routers, clients, range),
    )
}

/// The three metrics of a placement with at least one router.
pub fn measure(routers: &Vec<Point>, clients: &Vec<Point>, range: u32) -> (found: Metrics)
    requires
        routers.len() > 0,
    ensures
        is_metrics_of(found, positions(routers), positions(clients), range),
        1 <= found.sgc <= routers.len(),
        found.ncmc <= clients.len(),
        found.ncmcpr <= found.ncmc * 1_000_000,
{
    proof {
        lemma_giant_component_bounds(positions(routers), range);
        lemma_covered_count_bounds(positions(routers), positions(clients), range);
    }
    let giant = sgc(routers, range);
    let count = ncmc(routers, clients, range);
    Metrics { sgc: giant, ncmc: count, ncmcpr: per_router(count, routers.len()) }
}

/// The three metrics of a placement, or `None` where there is no router.
pub fn metrics(routers: &Vec<Point>, clients: &Vec<Point>, range: u32) -> (m: Option<Metrics>)
    ensures
        routers.len() == 0 ==> m.is_none(),
        routers.len() > 0 ==> (m matches Some(found) && is_metrics_of(
            found,
            positions(routers),
            positions(clients),
            range,
        )),
{
    if routers.len() == 0 {
        None
    } else {
        Some(measure(routers, clients, range))
    }
}

/// The weighted sum of the three metrics.
pub fn score(weights: &Weights, metrics: &Metrics) -> (total: u128)
    requires
        metrics.ncmcpr <= metrics.ncmc * 1_000_000,
    ensures
        total == weighted_sum(
            *weights,
            metrics.sgc as nat,
            metrics.ncmc as nat,
            metrics.ncmcpr as nat,
        ),
{
    let giant = metrics.sgc as u128;
    let count = metrics.ncmc as u128;
    let ratio = metrics.ncmcpr;
    let (a, b, c) = (weights.sgc as u128, weights.ncmc as u128, weights.ncmcpr as u128);
    assert(a * giant * 1_000_000 <= 0xffff_ffff * 0xffff_ffff_ffff_ffff * 1_000_000
        && a * giant >= 0) by (nonlinear_arith)
        requires
            0 <= a <= 0xffff_ffff,
            0 <= giant <= 0xffff_ffff_ffff_ffff,
    ;
    assert(b * count * 1_000_000 <= 0xffff_ffff * 0xffff_ffff_ffff_ffff * 1_000_000
        && b * count >= 0) by (nonlinear_arith)
        requires
            0 <= b <= 0xffff_ffff,
            0 <= count <= 0xffff_ffff_ffff_ffff,
    ;
    assert(c * ratio <= 0xffff_ffff * 0xffff_ffff_ffff_ffff * 1_000_000) by (nonlinear_arith)
        requires
            0 <= c <= 0xffff_ffff,
            0 <= ratio <= count * 1_000_000,
            0 <= count <= 0xffff_ffff_ffff_ffff,
    ;
    a * giant * (UNIT as u128) + b * count * (UNIT as u128) + c * ratio
}

/// The fitness of the placement `routers` for `clients`: the weighted sum of
/// the size of the giant component, the number of covered clients, and the
/// covered clients per router. `None` where there is no router.
pub fn fitness_function(
    routers: &Vec<Point>,
    clients: &Vec<Point>,
    range: u32,
    weights: &Weights,
) -> (score: Option<u128>)
    ensures
        routers.len() == 0 ==> score.is_none(),
        routers.len() > 0 ==> (score matches Some(total) && total == fitness(
            positions(routers),
            positions(clients),
            range,
            *weights,
        )),
{
    if routers.len() == 0 {
        None
    } else {
        Some(self::score(weights, &measure(routers, clients, range)))
    }
}

} // verus!
