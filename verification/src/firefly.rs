//! The movement rule of the firefly algorithm: how one router is drawn
//! toward another, and how a round draws every router toward every other.

use crate::config::Config;
use crate::geometry::{distance_squared, positions, squared_distance, Point};
use crate::units::{clamp, clamped, scale, scaled, HALF, UNIT};
use vstd::prelude::*;

verus! {

/// `kernel` can stand for the decay of light with distance: it accepts every
/// argument, and gives one value for each.
pub open spec fn is_decay<F: Fn(u128) -> u32>(kernel: F) -> bool {
    &&& forall|u: u128| #[trigger] kernel.requires((u,))
    &&& forall|u: u128, e1: u32, e2: u32|
        #[trigger] kernel.ensures((u,), e1) && #[trigger] kernel.ensures((u,), e2) ==> e1 == e2
}

/// The function that `kernel` computes.
pub open spec fn decay_of<F: Fn(u128) -> u32>(kernel: F) -> spec_fn(u128) -> u32 {
    |u: u128| choose|e: u32| kernel.ensures((u,), e)
}

/// `gamma` times the squared distance `r2`, as a fixed-point number rounded
/// down. The product stops at `u128::MAX`.
pub open spec fn decay_argument(gamma: u32, r2: int) -> int {
    let product = gamma * r2;
    (if product > u128::MAX {
        u128::MAX as int
    } else {
        product
    }) / 1_000_000_000_000
}

/// The attractiveness of a router at squared distance `r2`: `beta0` times the
/// decay at `gamma * r2`. A decay above 1 counts as 1.
pub open spec fn attractiveness(config: Config, decay: spec_fn(u128) -> u32, r2: int) -> int {
    let e = decay(decay_argument(config.gamma, r2) as u128);
    config.beta0 * (if e > 1_000_000 {
        1_000_000
    } else {
        e as int
    }) / 1_000_000
}

/// Where a coordinate `x` lands when it is drawn toward `toward` with
/// attractiveness `beta`: it moves by `beta` times the gap, then by `alpha`
/// times `noise - 1/2`, and is brought back into the bounds.
pub open spec fn moved_coordinate(config: Config, beta: int, x: i32, toward: i32, noise: i32) -> i32 {
    clamped(
        x + scaled(beta, toward - x) + scaled(config.alpha as int, noise - 500_000),
        config.lower_bound as int,
        config.upper_bound as int,
    ) as i32
}

/// Where `point` lands when it is drawn toward `target`. The random step of
/// coordinate `d` is `noise[offset + d]`.
pub open spec fn moved(
    config: Config,
    decay: spec_fn(u128) -> u32,
    point: Seq<i32>,
    target: Seq<i32>,
    noise: Seq<i32>,
    offset: int,
) -> Seq<i32> {
    let beta = attractiveness(config, decay, squared_distance(point, target));
    Seq::new(
        point.len(),
        |d: int| moved_coordinate(config, beta, point[d], target[d], noise[offset + d]),
    )
}

/// Where the random steps of the pair of routers `(i, j)` begin in the
/// noise of a round. The pairs follow one another in the order of `i`, then
/// of `j`, and a router is not paired with itself.
pub open spec fn pair_offset(config: Config, i: int, j: int) -> int {
    (i * (config.router_count - 1) + j - (if j > i {
        1int
    } else {
        0int
    })) * config.dimensions
}

/// Where router `i` is after it has been drawn, in turn, toward each of the
/// first `j` routers but itself. The other routers are read from `snapshot`,
/// the population as it stood when the round began.
pub open spec fn drawn(
    config: Config,
    decay: spec_fn(u128) -> u32,
    snapshot: Seq<Seq<i32>>,
    noise: Seq<i32>,
    i: int,
    j: nat,
) -> Seq<i32>
    decreases j,
{
    if j == 0 {
        snapshot[i]
    } else {
        let earlier = drawn(config, decay, snapshot, noise, i, (j - 1) as nat);
        if j - 1 == i {
            earlier
        } else {
            moved(config, decay, earlier, snapshot[j - 1], noise, pair_offset(config, i, j - 1))
        }
    }
}

/// The population after one round: every router has been drawn toward every
/// other.
pub open spec fn sweep(
    config: Config,
    decay: spec_fn(u128) -> u32,
    snapshot: Seq<Seq<i32>>,
    noise: Seq<i32>,
) -> Seq<Seq<i32>> {
    Seq::new(snapshot.len(), |i: int| drawn(config, decay, snapshot, noise, i, snapshot.len()))
}

/// `point` has one coordinate per dimension, each within the bounds.
pub open spec fn within_bounds(config: Config, point: Seq<i32>) -> bool {
    &&& point.len() == config.dimensions
    &&& forall|d: int|
        0 <= d < point.len() ==> config.lower_bound <= #[trigger] point[d] <= config.upper_bound
}

/// `points` are `count` points within the bounds.
pub open spec fn placement_ok(config: Config, points: Seq<Seq<i32>>, count: int) -> bool {
    &&& points.len() == count
    &&& forall|i: int| 0 <= i < points.len() ==> within_bounds(config, #[trigger] points[i])
}

/// A point that has been moved lies within the bounds.
pub proof fn lemma_moved_within_bounds(
    config: Config,
    decay: spec_fn(u128) -> u32,
    point: Seq<i32>,
    target: Seq<i32>,
    noise: Seq<i32>,
    offset: int,
)
    requires
        config.lower_bound <= config.upper_bound,
        point.len() == config.dimensions,
    ensures
        within_bounds(config, moved(config, decay, point, target, noise, offset)),
{
}

/// A router that starts a round within the bounds stays within them while
/// it is drawn toward the others.
pub proof fn lemma_drawn_within_bounds(
    config: Config,
    decay: spec_fn(u128) -> u32,
    snapshot: Seq<Seq<i32>>,
    noise: Seq<i32>,
    i: int,
    j: nat,
)
    requires
        config.lower_bound <= config.upper_bound,
        0 <= i < snapshot.len(),
        within_bounds(config, snapshot[i]),
    ensures
        within_bounds(config, drawn(config, decay, snapshot, noise, i, j)),
    decreases j,
{
    if j > 0 {
        lemma_drawn_within_bounds(config, decay, snapshot, noise, i, (j - 1) as nat);
        if j - 1 != i {
            lemma_moved_within_bounds(
                config,
                decay,
                drawn(config, decay, snapshot, noise, i, (j - 1) as nat),
                snapshot[j - 1],
                noise,
                pair_offset(config, i, j - 1),
            );
        }
    }
}

/// The clamp invariant: a round leaves every coordinate of every router
/// within the bounds.
pub proof fn lemma_sweep_within_bounds(
    config: Config,
    decay: spec_fn(u128) -> u32,
    snapshot: Seq<Seq<i32>>,
    noise: Seq<i32>,
)
    requires
        config.lower_bound <= config.upper_bound,
        placement_ok(config, snapshot, snapshot.len() as int),
    ensures
        placement_ok(config, sweep(config, decay, snapshot, noise), snapshot.len() as int),
{
    let next = sweep(config, decay, snapshot, noise);
    assert forall|i: int| 0 <= i < next.len() implies within_bounds(config, #[trigger] next[i]) by {
        lemma_drawn_within_bounds(config, decay, snapshot, noise, i, snapshot.len());
    }
}

/// The attractiveness of a router at squared distance `r2`.
pub fn attraction<F: Fn(u128) -> u32>(config: &Config, kernel: &F, r2: u128) -> (beta: u32)
    requires
        is_decay(*kernel),
    ensures
        beta == attractiveness(*config, decay_of(*kernel), r2 as int),
        beta <= config.beta0,
{
    let product: u128 = match (config.gamma as u128).checked_mul(r2) {
        Some(p) => p,
        None => u128::MAX,
    };
    let argument: u128 = product / 1_000_000_000_000;
    let e: u32 = kernel(argument);
    assert(e == decay_of(*kernel)(argument));
    let capped: u32 = if e > UNIT {
        UNIT
    } else {
        e
    };
    assert(config.beta0 * capped <= config.beta0 * 1_000_000) by (nonlinear_arith)
        requires
            0 <= capped <= 1_000_000,
            config.beta0 >= 0,
    ;
    let strength: u64 = (config.beta0 as u64) * (capped as u64);
    (strength / (UNIT as u64)) as u32
}

/// Draws `point` toward `target`: each coordinate moves by the
/// attractiveness times its gap to the target, then by `alpha` times a
/// random step centred on zero, and is brought back into the bounds. The
/// random step of coordinate `d`, a fixed-point number in `[0, 1)`, is
/// `noise[offset + d]`.
pub fn move_toward<F: Fn(u128) -> u32>(
    config: &Config,
    kernel: &F,
    point: &Point,
    target: &Point,
    noise: &Vec<i32>,
    offset: usize,
) -> (next: Point)
    requires
        is_decay(*kernel),
        config.lower_bound <= config.upper_bound,
        point.len() == config.dimensions,
        target.len() == config.dimensions,
        offset + config.dimensions <= noise.len(),
    ensures
        next@ == moved(*config, decay_of(*kernel), point@, target@, noise@, offset as int),
        within_bounds(*config, next@),
{
    let beta = attraction(config, kernel, distance_squared(point, target));
    let ghost goal = moved(*config, decay_of(*kernel), point@, target@, noise@, offset as int);
    let mut next: Vec<i32> = Vec::new();
    let mut d: usize = 0;
    while d < config.dimensions
        invariant
            d <= config.dimensions,
            config.lower_bound <= config.upper_bound,
            point.len() == config.dimensions,
            target.len() == config.dimensions,
            offset + config.dimensions <= noise.len(),
            beta == attractiveness(
                *config,
                decay_of(*kernel),
                squared_distance(point@, target@),
            ),
            goal == moved(*config, decay_of(*kernel), point@, target@, noise@, offset as int),
            next@.len() == d,
            forall|k: int| 0 <= k < d ==> next@[k] == goal[k],
        decreases config.dimensions - d,
    {
        let x = point[d];
        let pull = scale(beta, target[d] as i64 - x as i64);
        let jitter = scale(config.alpha, noise[offset + d] as i64 - HALF as i64);
        next.push(clamp(x as i64 + pull + jitter, config.lower_bound, config.upper_bound));
        d += 1;
    }
    assert(next@ =~= goal);
    next
}

/// One round of the search: every router is drawn toward every other
/// router, in the order of their indices. The others are read from
/// `snapshot`, so that the result does not depend on the order in which the
/// routers are taken.
pub fn sweep_routers<F: Fn(u128) -> u32>(
    config: &Config,
    kernel: &F,
    snapshot: &Vec<Point>,
    noise: &Vec<i32>,
) -> (next: Vec<Point>)
    requires
        is_decay(*kernel),
        config.valid(),
        placement_ok(*config, positions(snapshot), config.router_count as int),
        noise.len() == config.round_draws(),
    ensures
        positions(&next) == sweep(*config, decay_of(*kernel), positions(snapshot), noise@),
        placement_ok(*config, positions(&next), config.router_count as int),
{
    let count = config.router_count;
    let ghost before = positions(snapshot);
    let ghost decay = decay_of(*kernel);
    let ghost goal = sweep(*config, decay, before, noise@);
    let mut next: Vec<Point> = Vec::new();
    let mut offset: usize = 0;
    let mut i: usize = 0;
    assert((0 * (config.router_count - 1) + 0 - 0) * config.dimensions == 0) by (nonlinear_arith);
    while i < count
        invariant
            i <= count,
            count == config.router_count,
            is_decay(*kernel),
            config.valid(),
            before == positions(snapshot),
            decay == decay_of(*kernel),
            goal == sweep(*config, decay, before, noise@),
            placement_ok(*config, before, count as int),
            noise.len() == config.round_draws(),
            offset == pair_offset(*config, i as int, 0),
            next@.len() == i,
            forall|k: int| 0 <= k < i ==> (#[trigger] next@[k])@ == goal[k],
        decreases count - i,
    {
        let mut current: Point = snapshot[i].clone();
        assert(current@ =~= before[i as int]);
        assert(within_bounds(*config, before[i as int]));
        let mut j: usize = 0;
        while j < count
            invariant
                i < count,
                j <= count,
                count == config.router_count,
                is_decay(*kernel),
                config.valid(),
                before == positions(snapshot),
                decay == decay_of(*kernel),
                placement_ok(*config, before, count as int),
                noise.len() == config.round_draws(),
                offset == pair_offset(*config, i as int, j as int),
                current@ == drawn(*config, decay, before, noise@, i as int, j as nat),
                within_bounds(*config, current@),
            decreases count - j,
        {
            proof {
                lemma_pair_offset(
                    count as int,
                    config.dimensions as int,
                    i as int,
                    j as int,
                );
                assert(within_bounds(*config, before[j as int]));
            }
            if i != j {
                current = move_toward(config, kernel, &current, &snapshot[j], noise, offset);
                offset = offset + config.dimensions;
            }
            j += 1;
        }
        proof {
            lemma_row_offset(count as int, config.dimensions as int, i as int);
        }
        next.push(current);
        i += 1;
    }
    proof {
        assert(positions(&next) =~~= goal);
        lemma_sweep_within_bounds(*config, decay, before, noise@);
    }
    next
}

proof fn lemma_pair_offset(count: int, dimensions: int, i: int, j: int)
    by (nonlinear_arith)
    requires
        0 <= i < count,
        0 <= j < count,
        0 <= dimensions,
    ensures
        i != j ==> 0 <= (i * (count - 1) + j - (if j > i {
            1int
        } else {
            0int
        })) * dimensions,
        i != j ==> (i * (count - 1) + j - (if j > i {
            1int
        } else {
            0int
        })) * dimensions + dimensions == (i * (count - 1) + (j + 1) - (if j + 1 > i {
            1int
        } else {
            0int
        })) * dimensions,
        i != j ==> (i * (count - 1) + (j + 1) - (if j + 1 > i {
            1int
        } else {
            0int
        })) * dimensions <= count * (count - 1) * dimensions,
        i == j ==> (i * (count - 1) + j - 0) * dimensions == (i * (count - 1) + (j + 1) - 1)
            * dimensions,
{
}

proof fn lemma_row_offset(count: int, dimensions: int, i: int)
    by (nonlinear_arith)
    requires
        0 <= i < count,
    ensures
        (i * (count - 1) + count - 1) * dimensions == ((i + 1) * (count - 1) + 0 - 0)
            * dimensions,
{
}

} // verus!
